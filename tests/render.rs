use rtow::raster::Raster;
use rtow::render::{RenderPass, RenderStep};
use RenderStep::{Done, Emit, Sample};

fn schedule(width: u32, height: u32, samples: u32) -> Vec<RenderStep> {
    let mut pass = RenderPass::new(Raster::new(width, height).unwrap(), samples);
    let mut steps = Vec::new();
    loop {
        let step = pass.step();
        steps.push(step);
        if step == Done {
            return steps;
        }
        pass.advance();
    }
}

#[test]
fn pixels_in_row_major_order_with_their_samples() {
    assert_eq!(
        schedule(2, 2, 2),
        vec![
            Sample(0, 0),
            Sample(0, 0),
            Emit(0, 0),
            Sample(1, 0),
            Sample(1, 0),
            Emit(1, 0),
            Sample(0, 1),
            Sample(0, 1),
            Emit(0, 1),
            Sample(1, 1),
            Sample(1, 1),
            Emit(1, 1),
            Done,
        ]
    );
}

#[test]
fn every_pixel_emitted_once_after_its_samples() {
    let (width, height, samples) = (5u32, 3u32, 4u32);
    let steps = schedule(width, height, samples);
    assert_eq!(steps.len() as u32, width * height * (samples + 1) + 1);
    let mut emitted = Vec::new();
    let mut run = 0;
    for step in &steps {
        match *step {
            RenderStep::Sample(_, _) => run += 1,
            RenderStep::Emit(i, j) => {
                assert_eq!(run, samples);
                run = 0;
                emitted.push((i, j));
            }
            RenderStep::Done => {}
        }
    }
    let expected: Vec<(u32, u32)> =
        (0..height).flat_map(|j| (0..width).map(move |i| (i, j))).collect();
    assert_eq!(emitted, expected);
}

#[test]
fn one_sample_per_pixel() {
    assert_eq!(schedule(1, 1, 1), vec![Sample(0, 0), Emit(0, 0), Done]);
}

#[test]
fn zero_samples_emits_each_pixel_at_once() {
    assert_eq!(schedule(3, 1, 0), vec![Emit(0, 0), Emit(1, 0), Emit(2, 0), Done]);
}
