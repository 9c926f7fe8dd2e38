use juliaset::colorramp::{quantize, Color, ColorRamp, RampError, Tick, UNIT};

const ONE: u32 = UNIT;
const POS_ONE: i64 = 1_000_000;

fn black_to_white() -> ColorRamp {
    let mut ramp = ColorRamp::new();
    ramp.add(0, 0, 0, 0, ONE);
    ramp.add(POS_ONE, ONE, ONE, ONE, ONE);
    ramp
}

fn startup_ramp() -> ColorRamp {
    let mut ramp = ColorRamp::new();
    ramp.add(0, 0, 0, 0, ONE);
    ramp.add(40_000, 0, 0, 0, ONE);
    ramp.add(200_000, 400_000, 0, 0, ONE);
    ramp.add(500_000, ONE, 400_000, 0, ONE);
    ramp.add(800_000, ONE, ONE, 0, ONE);
    ramp.add(POS_ONE, ONE, ONE, ONE, ONE);
    ramp
}

fn stops(ramp: &ColorRamp) -> Vec<Tick> {
    let mut out = Vec::new();
    let mut i = 0;
    while let Some(t) = ramp.tick(i) {
        out.push(t);
        i += 1;
    }
    out
}

#[test]
fn startup_gradient_has_six_stops() {
    let ramp = ColorRamp::startup();
    assert_eq!(stops(&ramp), stops(&startup_ramp()));
    assert_eq!(ramp.len(), 6);
    assert_eq!(ramp.range(), Some((0, POS_ONE)));
    assert_eq!(
        ramp.tick(3),
        Some(Tick { position: 500_000, color: Color { r: ONE, g: 400_000, b: 0, a: ONE } })
    );
}

#[test]
fn new_ramp_is_empty() {
    let ramp = ColorRamp::new();
    assert_eq!(ramp.len(), 0);
    assert_eq!(ramp.tick(0), None);
    assert_eq!(ramp.range(), None);
    assert_eq!(ramp.interpolate(0), None);
}

#[test]
fn add_keeps_ascending_order() {
    let mut ramp = ColorRamp::new();
    ramp.add(500, 1, 0, 0, 0);
    ramp.add(-200, 2, 0, 0, 0);
    ramp.add(900, 3, 0, 0, 0);
    ramp.add(100, 4, 0, 0, 0);
    let got: Vec<(i64, u32)> = stops(&ramp).iter().map(|t| (t.position, t.color.r)).collect();
    assert_eq!(got, vec![(-200, 2), (100, 4), (500, 1), (900, 3)]);
}

#[test]
fn add_puts_equal_positions_in_order_of_arrival() {
    let mut ramp = ColorRamp::new();
    ramp.add(5, 10, 0, 0, 0);
    ramp.add(5, 20, 0, 0, 0);
    ramp.add(1, 30, 0, 0, 0);
    ramp.add(5, 40, 0, 0, 0);
    let got: Vec<(i64, u32)> = stops(&ramp).iter().map(|t| (t.position, t.color.r)).collect();
    assert_eq!(got, vec![(1, 30), (5, 10), (5, 20), (5, 40)]);
}

#[test]
fn add_stores_all_channels() {
    let mut ramp = ColorRamp::new();
    ramp.add(7, 1, 2, 3, 4);
    assert_eq!(ramp.len(), 1);
    assert_eq!(
        ramp.tick(0),
        Some(Tick { position: 7, color: Color { r: 1, g: 2, b: 3, a: 4 } })
    );
    assert_eq!(ramp.tick(1), None);
}

#[test]
fn range_needs_two_stops() {
    let mut ramp = ColorRamp::new();
    assert_eq!(ramp.range(), None);
    ramp.add(3, 0, 0, 0, 0);
    assert_eq!(ramp.range(), None);
    ramp.add(-8, 0, 0, 0, 0);
    assert_eq!(ramp.range(), Some((-8, 3)));
    ramp.add(1, 0, 0, 0, 0);
    assert_eq!(ramp.range(), Some((-8, 3)));
}

#[test]
fn interpolate_at_each_stop_gives_its_color() {
    let ramp = startup_ramp();
    for t in stops(&ramp) {
        assert_eq!(ramp.interpolate(t.position), Some(t.color));
    }
}

#[test]
fn interpolate_blends_between_adjacent_stops() {
    let ramp = startup_ramp();
    assert_eq!(
        ramp.interpolate(350_000),
        Some(Color { r: 700_000, g: 200_000, b: 0, a: ONE })
    );
    assert_eq!(
        ramp.interpolate(120_000),
        Some(Color { r: 200_000, g: 0, b: 0, a: ONE })
    );
    assert_eq!(
        ramp.interpolate(900_000),
        Some(Color { r: ONE, g: ONE, b: 500_000, a: ONE })
    );
}

#[test]
fn interpolate_outside_range_is_nothing() {
    let ramp = startup_ramp();
    assert_eq!(ramp.interpolate(-1), None);
    assert_eq!(ramp.interpolate(POS_ONE + 1), None);
    assert_eq!(ramp.interpolate(i64::MIN), None);
    assert_eq!(ramp.interpolate(i64::MAX), None);
}

#[test]
fn interpolate_with_fewer_than_two_stops_is_nothing() {
    let mut ramp = ColorRamp::new();
    assert_eq!(ramp.interpolate(0), None);
    ramp.add(0, 1, 2, 3, 4);
    assert_eq!(ramp.interpolate(0), None);
    assert_eq!(ramp.interpolate(5), None);
}

#[test]
fn interpolate_at_shared_position_gives_the_stop_added_first() {
    let mut ramp = ColorRamp::new();
    ramp.add(0, 100, 0, 0, 0);
    ramp.add(0, 200, 0, 0, 0);
    ramp.add(10, 300, 0, 0, 0);
    assert_eq!(ramp.interpolate(0), Some(Color { r: 100, g: 0, b: 0, a: 0 }));
    assert_eq!(ramp.interpolate(5), Some(Color { r: 250, g: 0, b: 0, a: 0 }));

    let mut tail = ColorRamp::new();
    tail.add(0, 100, 0, 0, 0);
    tail.add(10, 200, 0, 0, 0);
    tail.add(10, 300, 0, 0, 0);
    assert_eq!(tail.interpolate(10), Some(Color { r: 200, g: 0, b: 0, a: 0 }));
}

#[test]
fn interpolate_spans_the_whole_position_range() {
    let mut ramp = ColorRamp::new();
    ramp.add(i64::MIN, 0, 0, 0, 0);
    ramp.add(i64::MAX, u32::MAX, 0, 0, 0);
    assert_eq!(ramp.interpolate(i64::MIN), Some(Color { r: 0, g: 0, b: 0, a: 0 }));
    assert_eq!(ramp.interpolate(i64::MAX), Some(Color { r: u32::MAX, g: 0, b: 0, a: 0 }));
}

#[test]
fn blend_rounds_to_nearest() {
    let lo = Color { r: 0, g: 0, b: 10, a: 7 };
    let hi = Color { r: ONE, g: 1, b: 0, a: 7 };
    assert_eq!(lo.blend(hi, 1, 3), Color { r: 333_333, g: 0, b: 7, a: 7 });
    assert_eq!(lo.blend(hi, 2, 3), Color { r: 666_667, g: 1, b: 3, a: 7 });
    assert_eq!(lo.blend(hi, 1, 2), Color { r: 500_000, g: 1, b: 5, a: 7 });
    assert_eq!(lo.blend(hi, 0, 3), lo);
    assert_eq!(lo.blend(hi, 3, 3), hi);
    assert_eq!(lo.blend(hi, 0, 0), lo);
}

#[test]
fn quantize_rounds_and_saturates() {
    assert_eq!(quantize(0), 0);
    assert_eq!(quantize(ONE), 255);
    assert_eq!(quantize(500_000), 128);
    assert_eq!(quantize(250_000), 64);
    assert_eq!(quantize(400_000), 102);
    assert_eq!(quantize(1_960), 0);
    assert_eq!(quantize(1_961), 1);
    assert_eq!(quantize(2 * ONE), 255);
    assert_eq!(quantize(u32::MAX), 255);
}

#[test]
fn texture_of_black_to_white_four_wide() {
    let data = black_to_white().build_texture_data(4, 1).unwrap();
    assert_eq!(
        data,
        vec![0, 0, 0, 255, 64, 64, 64, 255, 128, 128, 128, 255, 255, 255, 255, 255]
    );
}

#[test]
fn texture_has_four_bytes_a_pixel_and_equal_rows() {
    let ramp = startup_ramp();
    let width = 16;
    let height = 5;
    let data = ramp.build_texture_data(width, height).unwrap();
    assert_eq!(data.len(), width * height * 4);
    let row = &data[..width * 4];
    for y in 0..height {
        assert_eq!(&data[y * width * 4..(y + 1) * width * 4], row);
    }
    assert_eq!(&row[..4], &[0, 0, 0, 255]);
    assert_eq!(&row[width * 4 - 4..], &[255, 255, 255, 255]);
}

#[test]
fn texture_columns_are_quantized_samples() {
    let ramp = startup_ramp();
    let width: usize = 10;
    let data = ramp.build_texture_data(width, 1).unwrap();
    for p in 0..width {
        let pos = if p == width - 1 { POS_ONE } else { (p as i64) * POS_ONE / (width as i64) };
        let c = ramp.interpolate(pos).unwrap();
        assert_eq!(
            &data[p * 4..p * 4 + 4],
            &[quantize(c.r), quantize(c.g), quantize(c.b), quantize(c.a)]
        );
    }
}

#[test]
fn texture_one_wide_holds_the_end_of_the_range() {
    let mut ramp = ColorRamp::new();
    ramp.add(0, ONE, 0, 0, ONE);
    ramp.add(100, 0, ONE, 0, ONE);
    assert_eq!(ramp.build_texture_data(1, 2), Ok(vec![0, 255, 0, 255, 0, 255, 0, 255]));
}

#[test]
fn texture_of_height_zero_is_empty() {
    assert_eq!(black_to_white().build_texture_data(4, 0), Ok(vec![]));
}

#[test]
fn texture_over_negative_positions() {
    let mut ramp = ColorRamp::new();
    ramp.add(-300, 0, 0, 0, 0);
    ramp.add(-100, ONE, ONE, ONE, ONE);
    assert_eq!(
        ramp.build_texture_data(2, 1),
        Ok(vec![0, 0, 0, 0, 255, 255, 255, 255])
    );
    assert_eq!(
        ramp.build_texture_data(4, 1).unwrap()[4..8],
        [64, 64, 64, 64]
    );
}

#[test]
fn texture_refuses_width_zero() {
    assert_eq!(black_to_white().build_texture_data(0, 1), Err(RampError::ZeroWidth));
    assert_eq!(black_to_white().build_texture_data(0, 0), Err(RampError::ZeroWidth));
}

#[test]
fn texture_refuses_too_few_stops() {
    let mut ramp = ColorRamp::new();
    assert_eq!(ramp.build_texture_data(4, 1), Err(RampError::TooFewStops));
    ramp.add(0, 0, 0, 0, ONE);
    assert_eq!(ramp.build_texture_data(4, 1), Err(RampError::TooFewStops));
    assert_eq!(ramp.build_texture_data(0, 1), Err(RampError::TooFewStops));
}

#[test]
fn startup_texture_is_1024_wide() {
    let data = startup_ramp().build_texture_data(1024, 1).unwrap();
    assert_eq!(data.len(), 4096);
    assert_eq!(&data[..4], &[0, 0, 0, 255]);
    assert_eq!(&data[4092..], &[255, 255, 255, 255]);
    assert_eq!(&data[512 * 4..512 * 4 + 4], &[255, 102, 0, 255]);
}
