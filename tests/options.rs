use soft_matrix::options::{
    parse_arguments, parse_bool, parse_channel_layout, parse_decimal, parse_matrix_format,
    text_is, ArgumentError, ChannelLayout, MatrixFormat,
};

fn args(list: &[&str]) -> Vec<String> {
    list.iter().map(|s| s.to_string()).collect()
}

#[test]
fn defaults_without_flags() {
    let a = parse_arguments(&args(&["soft_matrix", "in.wav", "out.wav"])).unwrap();
    assert_eq!(a.channel_layout, ChannelLayout::FiveOne);
    assert_eq!(a.matrix_format, MatrixFormat::Default);
    assert_eq!(a.num_threads, None);
    assert_eq!(a.fft_size, None);
    assert!(a.keep_awake);
    assert!(a.transform_mono);
    assert!(!a.loud);
    assert_eq!(a.low_frequency_at, None);
    assert_eq!(a.headroom_at, None);
    assert_eq!(a.minimum_steered_amplitude_at, None);
}

#[test]
fn too_few_arguments_is_usage() {
    assert_eq!(parse_arguments(&args(&["soft_matrix", "in.wav"])), Err(ArgumentError::Usage));
    assert_eq!(parse_arguments(&args(&[])), Err(ArgumentError::Usage));
}

#[test]
fn every_flag_is_read() {
    let a = parse_arguments(&args(&[
        "soft_matrix", "in.wav", "out.wav", "-fft_size", "+4096", "-headroom", "6", "-channels",
        "5", "-matrix", "rm", "-low", "15.5", "-threads", "8", "-minimum", "0.02", "-keepawake",
        "false", "-loud",
    ]))
    .unwrap();
    assert_eq!(a.fft_size, Some(4096));
    assert_eq!(a.headroom_at, Some(6));
    assert_eq!(a.channel_layout, ChannelLayout::Five);
    assert_eq!(a.matrix_format, MatrixFormat::QS);
    assert_eq!(a.low_frequency_at, Some(12));
    assert_eq!(a.num_threads, Some(8));
    assert_eq!(a.minimum_steered_amplitude_at, Some(16));
    assert!(!a.keep_awake);
    assert!(a.transform_mono);
    assert!(a.loud);
}

#[test]
fn later_flag_wins() {
    let a = parse_arguments(&args(&[
        "p", "a", "b", "-loud", "-quiet", "-channels", "4", "-channels", "5.1",
    ]))
    .unwrap();
    assert_eq!(a.channel_layout, ChannelLayout::FiveOne);
    assert!(!a.loud);
}

#[test]
fn four_channels_are_always_loud() {
    let a = parse_arguments(&args(&["p", "a", "b", "-channels", "4"])).unwrap();
    assert!(!a.transform_mono);
    assert!(a.loud);
}

#[test]
fn loudness_flags_refused_for_four_channels() {
    assert_eq!(
        parse_arguments(&args(&["p", "a", "b", "-channels", "4", "-quiet"])),
        Err(ArgumentError::LoudnessWithoutCenter(5))
    );
    assert_eq!(
        parse_arguments(&args(&["p", "a", "b", "-loud", "-channels", "4"])),
        Err(ArgumentError::LoudnessWithoutCenter(3))
    );
}

#[test]
fn each_error_names_its_argument() {
    assert_eq!(
        parse_arguments(&args(&["p", "a", "b", "-fft_size"])),
        Err(ArgumentError::MissingValue(3))
    );
    assert_eq!(
        parse_arguments(&args(&["p", "a", "b", "-fft_size", "big"])),
        Err(ArgumentError::NotAnInteger(4))
    );
    assert_eq!(
        parse_arguments(&args(&["p", "a", "b", "-fft_size", "5"])),
        Err(ArgumentError::FftSizeTooSmall(4))
    );
    assert_eq!(
        parse_arguments(&args(&["p", "a", "b", "-channels", "7.1"])),
        Err(ArgumentError::UnknownChannels(4))
    );
    assert_eq!(
        parse_arguments(&args(&["p", "a", "b", "-matrix", "ambisonic"])),
        Err(ArgumentError::UnknownMatrix(4))
    );
    assert_eq!(
        parse_arguments(&args(&["p", "a", "b", "-keepawake", "yes"])),
        Err(ArgumentError::NotABool(4))
    );
    assert_eq!(
        parse_arguments(&args(&["p", "a", "b", "-threads", "-1"])),
        Err(ArgumentError::NotAnInteger(4))
    );
    assert_eq!(
        parse_arguments(&args(&["p", "a", "b", "-bogus"])),
        Err(ArgumentError::UnknownFlag(3))
    );
    assert_eq!(
        parse_arguments(&args(&["p", "a", "b", "-threads", "2", "-low"])),
        Err(ArgumentError::MissingValue(5))
    );
}

#[test]
fn smallest_fft_size_is_accepted() {
    let a = parse_arguments(&args(&["p", "a", "b", "-fft_size", "6"])).unwrap();
    assert_eq!(a.fft_size, Some(6));
}

#[test]
fn decimal_numbers() {
    assert_eq!(parse_decimal("0"), Some(0));
    assert_eq!(parse_decimal("42"), Some(42));
    assert_eq!(parse_decimal("+7"), Some(7));
    assert_eq!(parse_decimal("007"), Some(7));
    assert_eq!(parse_decimal(""), None);
    assert_eq!(parse_decimal("+"), None);
    assert_eq!(parse_decimal("-3"), None);
    assert_eq!(parse_decimal("1 2"), None);
    assert_eq!(parse_decimal("18446744073709551615"), Some(usize::MAX));
    assert_eq!(parse_decimal("18446744073709551616"), None);
    assert_eq!(parse_decimal("99999999999999999999x"), None);
}

#[test]
fn decimal_matches_std() {
    for s in ["1", "+0", "12345", "", "+", "++1", "1+", " 1", "x", "4294967296"] {
        assert_eq!(parse_decimal(s), s.parse::<usize>().ok(), "{}", s);
    }
}

#[test]
fn names_and_words() {
    assert_eq!(parse_channel_layout("5.1"), Some(ChannelLayout::FiveOne));
    assert_eq!(parse_channel_layout("4"), Some(ChannelLayout::Four));
    assert_eq!(parse_channel_layout("5.0"), None);
    assert_eq!(parse_matrix_format("horseshoe"), Some(MatrixFormat::HorseShoe));
    assert_eq!(parse_matrix_format("dolby"), Some(MatrixFormat::DolbyStereo));
    assert_eq!(parse_matrix_format("sq"), Some(MatrixFormat::SQ));
    assert_eq!(parse_matrix_format("sqexperimental"), Some(MatrixFormat::SQExperimental));
    assert_eq!(parse_matrix_format("SQ"), None);
    assert_eq!(parse_bool("true"), Some(true));
    assert_eq!(parse_bool("false"), Some(false));
    assert_eq!(parse_bool("True"), None);
    assert!(text_is("abc", "abc"));
    assert!(!text_is("abc", "abd"));
    assert!(!text_is("ab", "abc"));
}

#[test]
fn layouts_and_families() {
    assert!(!ChannelLayout::Four.has_center());
    assert!(ChannelLayout::Five.has_center());
    assert!(!ChannelLayout::Five.has_lfe());
    assert!(ChannelLayout::FiveOne.has_lfe());
    assert!(MatrixFormat::SQ.steers_right_left());
    assert!(MatrixFormat::SQExperimental.steers_right_left());
    assert!(!MatrixFormat::Default.steers_right_left());
    assert!(!MatrixFormat::QS.steers_right_left());
    assert!(!MatrixFormat::HorseShoe.steers_right_left());
    assert!(!MatrixFormat::DolbyStereo.steers_right_left());
}
