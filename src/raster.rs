use vstd::prelude::*;

verus! {

/// Why a render configuration cannot give an image.
#[derive(Debug, Clone, Copy, PartialEq, Eq, Structural)]
pub enum ConfigError {
    /// `image_width` is zero, so there is no pixel to cast a ray through.
    ZeroWidth,
    /// The pixel count does not fit in `usize` on this machine.
    TooLarge,
}

/// The height that an image of `scaled_height` rows gets: at least one row.
pub open spec fn derived_height(scaled_height: nat) -> nat {
    if scaled_height < 1 {
        1
    } else {
        scaled_height
    }
}

/// Position of pixel `(i, j)` (column `i`, row `j`) in row-major order,
/// top row first, left to right within a row.
pub open spec fn pixel_index(width: nat, i: nat, j: nat) -> nat {
    j * width + i
}

/// The product of two `u32` values fits in a `u64`.
proof fn lemma_u32_product_fits(a: u32, b: u32)
    ensures
        a * b <= u64::MAX,
{
    assert(a * b <= 0xffff_ffff * 0xffff_ffff) by (nonlinear_arith)
        requires
            a <= 0xffff_ffff,
            b <= 0xffff_ffff,
    ;
}

/// `j * width + i` lies inside a `width` by `height` grid when `(i, j)` does.
pub proof fn lemma_index_in_grid(width: nat, height: nat, i: nat, j: nat)
    requires
        i < width,
        j < height,
    ensures
        pixel_index(width, i, j) < width * height,
{
    assert(j * width + i < width * height) by (nonlinear_arith)
        requires
            i < width,
            j < height,
    ;
}

/// Row-major position `k` holds pixel `(k % width, k / width)`.
pub proof fn lemma_position_to_pixel(width: nat, k: nat)
    requires
        width >= 1,
    ensures
        k % width < width,
        pixel_index(width, k % width, k / width) == k,
{
    vstd::arithmetic::div_mod::lemma_fundamental_div_mod(k as int, width as int);
    vstd::arithmetic::mul::lemma_mul_is_commutative(width as int, (k / width) as int);
}

/// Distinct pixels of one row width have distinct row-major positions.
pub proof fn lemma_positions_distinct(width: nat, i: nat, j: nat, i2: nat, j2: nat)
    requires
        i < width,
        i2 < width,
        pixel_index(width, i, j) == pixel_index(width, i2, j2),
    ensures
        i == i2,
        j == j2,
{
    let k = (j * width + i) as int;
    vstd::arithmetic::div_mod::lemma_fundamental_div_mod_converse(k, width as int, j as int, i as int);
    vstd::arithmetic::div_mod::lemma_fundamental_div_mod_converse(
        k,
        width as int,
        j2 as int,
        i2 as int,
    );
}

/// Pixel dimensions of a render target: at least one column and one row.
#[derive(Debug, Clone, Copy)]
pub struct Raster {
    width: u32,
    height: u32,
}

impl Raster {
    #[verifier::type_invariant]
    closed spec fn inv(&self) -> bool {
        &&& 1 <= self.width
        &&& 1 <= self.height
        &&& self.width * self.height <= usize::MAX
    }

    /// Number of pixel columns.
    pub closed spec fn columns(&self) -> nat {
        self.width as nat
    }

    /// Number of pixel rows.
    pub closed spec fn rows(&self) -> nat {
        self.height as nat
    }

    /// Builds the raster of an image `image_width` pixels wide whose height,
    /// scaled from the width by the aspect ratio, came out as `scaled_height`.
    /// A height under one row is raised to one row.
    pub fn new(image_width: u32, scaled_height: u32) -> (r: Result<Raster, ConfigError>)
        ensures
            image_width == 0 ==> r == Err::<Raster, ConfigError>(ConfigError::ZeroWidth),
            image_width > 0 && image_width * derived_height(scaled_height as nat) > usize::MAX
                ==> r == Err::<Raster, ConfigError>(ConfigError::TooLarge),
            image_width > 0 && image_width * derived_height(scaled_height as nat) <= usize::MAX
                ==> (r matches Ok(raster) && raster.columns() == image_width && raster.rows()
                == derived_height(scaled_height as nat)),
    {
        if image_width == 0 {
            return Err(ConfigError::ZeroWidth);
        }
        let height: u32 = if scaled_height < 1 {
            1
        } else {
            scaled_height
        };
        proof {
            lemma_u32_product_fits(image_width, height);
        }
        let count: u64 = image_width as u64 * height as u64;
        if count > usize::MAX as u64 {
            return Err(ConfigError::TooLarge);
        }
        Ok(Raster { width: image_width, height })
    }

    /// Number of pixel columns.
    pub fn width(&self) -> (w: u32)
        ensures
            w == self.columns(),
            w >= 1,
    {
        proof {
            use_type_invariant(self);
        }
        self.width
    }

    /// Number of pixel rows.
    pub fn height(&self) -> (h: u32)
        ensures
            h == self.rows(),
            h >= 1,
    {
        proof {
            use_type_invariant(self);
        }
        self.height
    }

    /// Number of pixels, `width * height`.
    pub fn pixel_count(&self) -> (n: usize)
        ensures
            n == self.columns() * self.rows(),
            n >= 1,
    {
        proof {
            use_type_invariant(self);
            lemma_u32_product_fits(self.width, self.height);
            assert(self.width * self.height >= 1) by (nonlinear_arith)
                requires
                    self.width >= 1,
                    self.height >= 1,
            ;
        }
        self.width as usize * self.height as usize
    }

    /// Row-major position of pixel `(i, j)`.
    pub fn index_of(&self, i: u32, j: u32) -> (k: usize)
        requires
            i < self.columns(),
            j < self.rows(),
        ensures
            k == pixel_index(self.columns(), i as nat, j as nat),
            k < self.columns() * self.rows(),
    {
        proof {
            use_type_invariant(self);
            lemma_index_in_grid(self.columns(), self.rows(), i as nat, j as nat);
        }
        j as usize * self.width as usize + i as usize
    }
}

} // verus!
