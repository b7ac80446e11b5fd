use colorust::ffmpeg::{
    ChannelGamma, Encoder, FilterColorBalance, FilterColortemp, FilterCustom, FilterEq,
    FilterExposure, FilterLut, FilterOption, FilterScale, FilterSpec, LutInterpolation,
    NumberOfFramesOption, SkipOption,
};
use colorust::mlt::Element;

fn prop(name: &str, value: &str) -> Element {
    Element {
        tag: "property".to_string(),
        attrs: vec![("name".to_string(), name.to_string())],
        text: Some(value.to_string()),
        children: vec![],
    }
}

fn filter_element(props: Vec<(&str, &str)>) -> Element {
    Element {
        tag: "filter".to_string(),
        attrs: vec![("id".to_string(), "filter0".to_string())],
        text: None,
        children: props.into_iter().map(|(n, v)| prop(n, v)).collect(),
    }
}

#[test]
fn render_exposure_pinned() {
    let f = FilterExposure { is_active: true, exposure: "0".to_string(), black: "0".to_string() };
    assert_eq!(f.to_filter_string(), "exposure=exposure=0:black=0");
}

#[test]
fn render_lut_pinned() {
    let f = FilterLut {
        is_active: true,
        file: "look.cube".to_string(),
        interpolation: LutInterpolation::Tetrahedral,
    };
    assert_eq!(f.to_filter_string(), "lut3d=file=look.cube:interp=tetrahedral");
}

#[test]
fn render_eq_pinned() {
    let f = FilterEq {
        is_active: true,
        contrast: "1.2".to_string(),
        brightness: "0".to_string(),
        saturation: "1".to_string(),
        gamma: "0.9".to_string(),
        channel_gamma: Some(ChannelGamma {
            red: "1".to_string(),
            green: "1.1".to_string(),
            blue: "1".to_string(),
        }),
    };
    assert_eq!(
        f.to_filter_string(),
        "eq=contrast=1.2:brightness=0:saturation=1:gamma=0.9:gamma_r=1:gamma_g=1.1:gamma_b=1"
    );
}

#[test]
fn render_eq_without_channel_gammas() {
    let f = FilterEq {
        is_active: true,
        contrast: "1".to_string(),
        brightness: "0".to_string(),
        saturation: "1".to_string(),
        gamma: "1".to_string(),
        channel_gamma: None,
    };
    assert_eq!(f.to_filter_string(), "eq=contrast=1:brightness=0:saturation=1:gamma=1");
}

#[test]
fn render_colortemp_pinned() {
    let f = FilterColortemp { is_active: true, temperature: 6500 };
    assert_eq!(f.to_filter_string(), "colortemperature=temperature=6500:pl=1");
}

#[test]
fn render_colorbalance_pinned() {
    let f = FilterColorBalance {
        is_active: true,
        shadows_red: "0.1".to_string(),
        shadows_green: "0".to_string(),
        shadows_blue: "-0.1".to_string(),
        midtones_red: "0".to_string(),
        midtones_green: "0".to_string(),
        midtones_blue: "0".to_string(),
        highlights_red: "0".to_string(),
        highlights_green: "0".to_string(),
        highlights_blue: "0.25".to_string(),
        preserve_lightness: true,
    };
    assert_eq!(
        f.to_filter_string(),
        "colorbalance=rs=0.1:gs=0:bs=-0.1:rm=0:gm=0:bm=0:rh=0:gh=0:bh=0.25"
    );
}

#[test]
fn render_custom_passthrough() {
    let f = FilterCustom { is_active: true, expression: "hue=h=90".to_string() };
    assert_eq!(f.to_filter_string(), "hue=h=90");
}

#[test]
fn render_scale_pinned() {
    let f = FilterScale { is_active: true, width: 1280, height: 720 };
    assert_eq!(f.to_filter_string(), "scale=1280:720");
}

#[test]
fn defaults_match_neutral_settings() {
    let e = FilterEq::default();
    assert_eq!(
        e.to_filter_string(),
        "eq=contrast=1:brightness=0:saturation=1:gamma=1:gamma_r=1:gamma_g=1:gamma_b=1"
    );
    let x = FilterExposure::default();
    assert!(!x.is_active);
    assert_eq!(x.to_filter_string(), "exposure=exposure=0:black=0");
    let t = FilterColortemp::default();
    assert_eq!(t.temperature, 6500);
    let l = FilterLut::default();
    assert_eq!(l.interpolation, LutInterpolation::Tetrahedral);
    assert_eq!(l.file, "");
}

#[test]
fn skip_option_args() {
    let s = SkipOption { seconds: 42 };
    assert_eq!(s.to_option_args(), vec!["-ss".to_string(), "42".to_string()]);
}

#[test]
fn frames_option_args() {
    let n = NumberOfFramesOption { frames: 1 };
    assert_eq!(n.to_option_args(), vec!["-frames:v".to_string(), "1".to_string()]);
}

#[test]
fn encoder_args() {
    let e = Encoder { expression: "libx264".to_string() };
    assert_eq!(e.to_option_args(), vec!["-c:v".to_string(), "libx264".to_string()]);
    let empty = Encoder { expression: String::new() };
    assert_eq!(empty.to_option_args(), Vec::<String>::new());
}

#[test]
fn filter_option_args_join_active() {
    let o = FilterOption {
        filters: vec![
            FilterSpec::Exposure(FilterExposure {
                is_active: true,
                exposure: "1".to_string(),
                black: "0".to_string(),
            }),
            FilterSpec::ColorTemperature(FilterColortemp { is_active: false, temperature: 5000 }),
            FilterSpec::Custom(FilterCustom {
                is_active: true,
                expression: "hue=h=90".to_string(),
            }),
        ],
    };
    assert_eq!(
        o.to_option_args(),
        vec!["-vf".to_string(), "exposure=exposure=1:black=0,hue=h=90".to_string()]
    );
}

#[test]
fn filter_option_args_empty_when_all_inactive() {
    let o = FilterOption {
        filters: vec![
            FilterSpec::ColorTemperature(FilterColortemp { is_active: false, temperature: 5000 }),
        ],
    };
    assert_eq!(o.to_option_args(), Vec::<String>::new());
    let none = FilterOption { filters: vec![] };
    assert_eq!(none.to_option_args(), Vec::<String>::new());
}

#[test]
fn parse_exposure_with_timestamps() {
    let e = filter_element(vec![
        ("mlt_service", "avfilter.exposure"),
        ("av.exposure", "00:00:00.000=3.5"),
        ("av.black", "0.01"),
    ]);
    let f = FilterExposure::from_element(&e).unwrap();
    assert!(f.is_active);
    assert_eq!(f.exposure, "3.5");
    assert_eq!(f.black, "0.01");
}

#[test]
fn timestamped_and_bare_values_parse_alike() {
    let a = filter_element(vec![
        ("mlt_service", "avfilter.exposure"),
        ("av.exposure", "00:00:00.000=3.5"),
        ("av.black", "00:00:00.000=0"),
    ]);
    let b = filter_element(vec![
        ("mlt_service", "avfilter.exposure"),
        ("av.exposure", "3.5"),
        ("av.black", "0"),
    ]);
    assert_eq!(FilterExposure::from_element(&a), FilterExposure::from_element(&b));
}

#[test]
fn disable_absent_means_active() {
    for props in [
        vec![("mlt_service", "avfilter.exposure"), ("av.exposure", "1"), ("av.black", "0")],
        vec![("mlt_service", "avfilter.lut3d"), ("av.file", "a.cube"), ("av.interp", "nearest")],
        vec![
            ("mlt_service", "avfilter.eq"),
            ("av.contrast", "1"),
            ("av.brightness", "0"),
            ("av.saturation", "1"),
            ("av.gamma", "1"),
        ],
        vec![("mlt_service", "avfilter.colortemperature"), ("av.temperature", "6500")],
    ] {
        let f = FilterSpec::from_element(&filter_element(props)).unwrap();
        assert!(f.is_active());
    }
}

#[test]
fn disable_one_means_inactive() {
    for props in [
        vec![
            ("mlt_service", "avfilter.exposure"),
            ("av.exposure", "1"),
            ("av.black", "0"),
            ("disable", "1"),
        ],
        vec![
            ("mlt_service", "avfilter.lut3d"),
            ("av.file", "a.cube"),
            ("av.interp", "nearest"),
            ("disable", "1"),
        ],
        vec![
            ("mlt_service", "avfilter.eq"),
            ("av.contrast", "1"),
            ("av.brightness", "0"),
            ("av.saturation", "1"),
            ("av.gamma", "1"),
            ("disable", "1"),
        ],
        vec![
            ("mlt_service", "avfilter.colortemperature"),
            ("av.temperature", "6500"),
            ("disable", "1"),
        ],
    ] {
        let f = FilterSpec::from_element(&filter_element(props)).unwrap();
        assert!(!f.is_active());
    }
}

#[test]
fn disable_value_may_carry_timestamp() {
    let f = FilterSpec::from_element(&filter_element(vec![
        ("mlt_service", "avfilter.colortemperature"),
        ("av.temperature", "6500"),
        ("disable", "00:00:00.000=1"),
    ]))
    .unwrap();
    assert!(!f.is_active());
}

#[test]
fn disable_other_values_leave_active() {
    let f = FilterSpec::from_element(&filter_element(vec![
        ("mlt_service", "avfilter.colortemperature"),
        ("av.temperature", "6500"),
        ("disable", "0"),
    ]))
    .unwrap();
    assert!(f.is_active());
    let g = FilterSpec::from_element(&filter_element(vec![
        ("mlt_service", "avfilter.colortemperature"),
        ("av.temperature", "6500"),
        ("disable", "what"),
    ]))
    .unwrap();
    assert!(g.is_active());
}

#[test]
fn missing_parameter_rejects_filter() {
    let e = filter_element(vec![("mlt_service", "avfilter.exposure"), ("av.exposure", "1")]);
    assert_eq!(FilterExposure::from_element(&e), None);
    assert!(FilterSpec::from_element(&e).is_none());
}

#[test]
fn non_numeric_parameter_rejects_filter() {
    let e = filter_element(vec![
        ("mlt_service", "avfilter.exposure"),
        ("av.exposure", "bright"),
        ("av.black", "0"),
    ]);
    assert_eq!(FilterExposure::from_element(&e), None);
}

#[test]
fn unknown_interpolation_rejects_lut() {
    let e = filter_element(vec![
        ("mlt_service", "avfilter.lut3d"),
        ("av.file", "a.cube"),
        ("av.interp", "bicubic"),
    ]);
    assert_eq!(FilterLut::from_element(&e), None);
}

#[test]
fn eq_channel_gammas_taken_as_group() {
    let with = filter_element(vec![
        ("mlt_service", "avfilter.eq"),
        ("av.contrast", "1"),
        ("av.brightness", "0"),
        ("av.saturation", "1"),
        ("av.gamma", "1"),
        ("av.gamma_r", "1.1"),
        ("av.gamma_g", "1"),
        ("av.gamma_b", "0.9"),
    ]);
    let f = FilterEq::from_element(&with).unwrap();
    assert!(f.channel_gamma.is_some());
    let partial = filter_element(vec![
        ("mlt_service", "avfilter.eq"),
        ("av.contrast", "1"),
        ("av.brightness", "0"),
        ("av.saturation", "1"),
        ("av.gamma", "1"),
        ("av.gamma_r", "1.1"),
    ]);
    let g = FilterEq::from_element(&partial).unwrap();
    assert!(g.channel_gamma.is_none());
}

#[test]
fn colortemp_needs_unsigned_temperature() {
    let ok = filter_element(vec![
        ("mlt_service", "avfilter.colortemperature"),
        ("av.temperature", "+06500"),
    ]);
    let f = FilterColortemp::from_element(&ok).unwrap();
    assert_eq!(f.temperature, 6500);
    assert_eq!(f.to_filter_string(), "colortemperature=temperature=6500:pl=1");
    let overflow = filter_element(vec![
        ("mlt_service", "avfilter.colortemperature"),
        ("av.temperature", "4294967296"),
    ]);
    assert_eq!(FilterColortemp::from_element(&overflow), None);
}

#[test]
fn service_priority_picks_matching_kind() {
    let lut = filter_element(vec![
        ("mlt_service", "avfilter.lut3d"),
        ("av.file", "a.cube"),
        ("av.interp", "trilinear"),
    ]);
    assert!(matches!(FilterSpec::from_element(&lut), Some(FilterSpec::Lut(_))));
    let other = filter_element(vec![("mlt_service", "avfilter.unsharp"), ("av.amount", "1")]);
    assert!(FilterSpec::from_element(&other).is_none());
}

#[test]
fn timestamp_stripping_takes_text_after_last_equals() {
    let e = Element {
        tag: "dummy".to_string(),
        attrs: vec![],
        text: None,
        children: vec![prop("p", "a=b=c"), prop("q", "no-marker")],
    };
    assert_eq!(colorust::mlt::get_property_value(&e, "p"), Some("c".to_string()));
    assert_eq!(colorust::mlt::get_property_value(&e, "q"), Some("no-marker".to_string()));
    assert_eq!(colorust::mlt::get_property_value(&e, "missing"), None);
}

#[test]
fn numeric_text_grammar() {
    assert!(colorust::num::check_numeric_text("3.5"));
    assert!(colorust::num::check_numeric_text("-0.25"));
    assert!(colorust::num::check_numeric_text("+1.5"));
    assert!(colorust::num::check_numeric_text("1."));
    assert!(colorust::num::check_numeric_text(".5"));
    assert!(colorust::num::check_numeric_text("1e3"));
    assert!(colorust::num::check_numeric_text("1.5E-3"));
    assert!(colorust::num::check_numeric_text("inf"));
    assert!(colorust::num::check_numeric_text("NaN"));
    assert!(colorust::num::check_numeric_text("Infinity"));
    assert!(!colorust::num::check_numeric_text(""));
    assert!(!colorust::num::check_numeric_text("."));
    assert!(!colorust::num::check_numeric_text("e5"));
    assert!(!colorust::num::check_numeric_text("1.5.2"));
    assert!(!colorust::num::check_numeric_text("00:00:00.000"));
    assert!(!colorust::num::check_numeric_text("bright"));
}

#[test]
fn numeric_text_matches_float_parsing() {
    for s in ["3.5", "-0.25", "1.", ".5", "1e3", "inf", "NaN", "", ".", "e5", "1.5.2", "x"] {
        assert_eq!(colorust::num::check_numeric_text(s), s.parse::<f32>().is_ok(), "on {s:?}");
    }
}

#[test]
fn integer_parsing() {
    assert_eq!(colorust::num::parse_u32("6500"), Some(6500));
    assert_eq!(colorust::num::parse_u32("+123"), Some(123));
    assert_eq!(colorust::num::parse_u32("4294967295"), Some(u32::MAX));
    assert_eq!(colorust::num::parse_u32("4294967296"), None);
    assert_eq!(colorust::num::parse_u32("-1"), None);
    assert_eq!(colorust::num::parse_u32(""), None);
    assert_eq!(colorust::num::parse_u32("12a"), None);
    assert_eq!(colorust::num::parse_i32("1"), Some(1));
    assert_eq!(colorust::num::parse_i32("-2147483648"), Some(i32::MIN));
    assert_eq!(colorust::num::parse_i32("2147483648"), None);
    assert_eq!(colorust::num::parse_i32("+7"), Some(7));
}

#[test]
fn integer_rendering() {
    assert_eq!(colorust::num::u64_to_string(0), "0");
    assert_eq!(colorust::num::u64_to_string(1280), "1280");
    assert_eq!(colorust::num::u64_to_string(u64::MAX), u64::MAX.to_string());
    assert_eq!(colorust::num::u32_to_string(6500), "6500");
}
