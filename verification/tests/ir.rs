use penumbra::ir::OpSpec;

fn requant_with(
    mult: u64,
    clamp_lut: Vec<u64>,
    mults: Vec<u64>,
    shifts: Vec<u32>,
    round_biases: Vec<u64>,
    channel_size: Option<usize>,
) -> OpSpec {
    OpSpec::Requant {
        shift: 0,
        mult,
        round_bias: 0,
        out_bits: 2,
        clamp_lut,
        mults,
        shifts,
        round_biases,
        channel_size,
    }
}

#[test]
fn build_rejects_mismatched_linear() {
    let spec = OpSpec::Linear {
        weights: vec![vec![1, 2], vec![3, 4]],
        bias: vec![0],
        weight_bits: 4,
    };
    assert!(spec.build().is_err());
}

#[test]
fn linear_bias_mismatch_message() {
    let spec = OpSpec::Linear {
        weights: vec![vec![1, 2], vec![3, 4]],
        bias: vec![0],
        weight_bits: 4,
    };
    assert_eq!(
        spec.validate().unwrap_err(),
        "Linear op has 2 weight rows but 1 biases; need one bias per row"
    );
}

#[test]
fn linear_ragged_rows_message() {
    let spec = OpSpec::Linear {
        weights: vec![vec![1, 2], vec![3, 4, 5]],
        bias: vec![0, 0],
        weight_bits: 4,
    };
    assert_eq!(
        spec.validate().unwrap_err(),
        "Linear weight row 1 has width 3 but row 0 has width 2; all rows must match the input length"
    );
    let empty = OpSpec::Linear { weights: vec![], bias: vec![], weight_bits: 4 };
    assert_eq!(empty.validate().unwrap_err(), "Linear op has no weight rows");
}

#[test]
fn conv2d_validation_rejects_fan_in_mismatch() {
    let good = OpSpec::Conv2d {
        weights: vec![vec![0i64; 9]],
        bias: vec![0],
        weight_bits: 4,
        in_h: 5,
        in_w: 5,
        in_channels: 1,
        kernel_h: 3,
        kernel_w: 3,
        stride: 1,
        padding: 0,
    };
    assert!(good.build().is_ok());
    let bad = OpSpec::Conv2d {
        weights: vec![vec![0i64; 8]],
        bias: vec![0],
        weight_bits: 4,
        in_h: 5,
        in_w: 5,
        in_channels: 1,
        kernel_h: 3,
        kernel_w: 3,
        stride: 1,
        padding: 0,
    };
    assert!(bad.build().is_err(), "kernel/fan-in mismatch must fail");
    assert_eq!(
        bad.validate().unwrap_err(),
        "Conv2d kernel row 0 has width 8 but in_channels*kernel_h*kernel_w = 9; every kernel must match the fan-in"
    );
}

#[test]
fn conv2d_kernel_must_fit_padded_input() {
    let spec = OpSpec::Conv2d {
        weights: vec![vec![0i64; 9]],
        bias: vec![0],
        weight_bits: 4,
        in_h: 2,
        in_w: 2,
        in_channels: 1,
        kernel_h: 3,
        kernel_w: 3,
        stride: 1,
        padding: 0,
    };
    assert_eq!(
        spec.validate().unwrap_err(),
        "Conv2d kernel (3x3) does not fit the padded input (2x2)"
    );
    let padded = OpSpec::Conv2d {
        weights: vec![vec![0i64; 9]],
        bias: vec![0],
        weight_bits: 4,
        in_h: 2,
        in_w: 2,
        in_channels: 1,
        kernel_h: 3,
        kernel_w: 3,
        stride: 1,
        padding: 1,
    };
    assert!(padded.validate().is_ok());
}

#[test]
fn requant_validation_rejects_bad_tables_and_mult() {
    assert!(requant_with(1, vec![0, 1, 2, 3], vec![], vec![], vec![], None).build().is_ok());
    let bad_len = requant_with(1, vec![0, 1, 2], vec![], vec![], vec![], None);
    assert_eq!(
        bad_len.validate().unwrap_err(),
        "Requant clamp_lut must have 4 entries (the 2-bit message space); got 3"
    );
    let bad_entry = requant_with(1, vec![0, 1, 2, 9], vec![], vec![], vec![], None);
    assert_eq!(
        bad_entry.validate().unwrap_err(),
        "Requant clamp_lut[3] = 9 does not fit one shortint block (must be < 4)"
    );
    let zero_mult = requant_with(0, vec![0, 1, 2, 3], vec![], vec![], vec![], None);
    assert!(zero_mult.build().is_err());
}

#[test]
fn requant_per_channel_validation() {
    let good = requant_with(1, vec![0, 1, 2, 3], vec![1, 3], vec![0, 5], vec![0, 16], Some(2));
    assert!(good.build().is_ok());
    let bad = requant_with(1, vec![0, 1, 2, 3], vec![1, 3], vec![0], vec![0, 16], Some(2));
    assert_eq!(
        bad.validate().unwrap_err(),
        "Requant per-channel arrays must be equal length: mults=2, shifts=1, round_biases=2"
    );
    let no_cs = requant_with(1, vec![0, 1, 2, 3], vec![1, 3], vec![0, 5], vec![0, 16], None);
    assert!(no_cs.build().is_err());
    let zero = requant_with(1, vec![0, 1, 2, 3], vec![1, 0], vec![0, 5], vec![0, 16], Some(2));
    assert_eq!(
        zero.validate().unwrap_err(),
        "Requant mults[1] = 0 must be >= 1 (a fixed-point multiplier per channel; 1 is a pure shift)"
    );
    let cs_zero = requant_with(1, vec![0, 1, 2, 3], vec![1, 3], vec![0, 5], vec![0, 16], Some(0));
    assert_eq!(cs_zero.validate().unwrap_err(), "Requant channel_size must be >= 1");
}

#[test]
fn pool_validation_rejects_bad_mode_and_window() {
    let good = OpSpec::Pool {
        mode: "avg".to_string(),
        in_h: 4,
        in_w: 4,
        channels: 2,
        pool_h: 2,
        pool_w: 2,
        stride: 2,
    };
    assert!(good.build().is_ok());
    let bad_mode = OpSpec::Pool {
        mode: "median".to_string(),
        in_h: 4,
        in_w: 4,
        channels: 1,
        pool_h: 2,
        pool_w: 2,
        stride: 2,
    };
    assert_eq!(
        bad_mode.validate().unwrap_err(),
        "Pool mode must be \"avg\" or \"max\"; got \"median\""
    );
    let too_big = OpSpec::Pool {
        mode: "max".to_string(),
        in_h: 2,
        in_w: 2,
        channels: 1,
        pool_h: 3,
        pool_w: 3,
        stride: 1,
    };
    assert_eq!(
        too_big.validate().unwrap_err(),
        "Pool window (3x3) must fit the input (2x2)"
    );
}

#[test]
fn op_type_names() {
    assert_eq!(OpSpec::Add {}.op_type(), "Add");
    assert_eq!(OpSpec::Argmax { threshold: 2 }.op_type(), "Argmax");
    assert_eq!(OpSpec::Activation { lut: vec![], output_bits: 2 }.op_type(), "Activation");
}

#[test]
fn conv2d_early_refusals_need_no_size_arithmetic() {
    let huge = OpSpec::Conv2d {
        weights: vec![],
        bias: vec![],
        weight_bits: 4,
        in_h: 5,
        in_w: 5,
        in_channels: usize::MAX,
        kernel_h: usize::MAX,
        kernel_w: 3,
        stride: 1,
        padding: usize::MAX,
    };
    assert_eq!(huge.validate(), Err("Conv2d op has no output channels (empty weights)".to_string()));
    let zero_kernel = OpSpec::Conv2d {
        weights: vec![vec![0]],
        bias: vec![0],
        weight_bits: 4,
        in_h: 5,
        in_w: 5,
        in_channels: usize::MAX,
        kernel_h: usize::MAX,
        kernel_w: 0,
        stride: 1,
        padding: 0,
    };
    assert!(zero_kernel.build().is_err());
    assert_eq!(zero_kernel.validate(), Err("Conv2d kernel_h/kernel_w/stride must be positive".to_string()));
}
