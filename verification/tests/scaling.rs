use image_sizing::utils::{parse_scaling, Image, Resolution, Scale};

#[test]
fn test_parse_scaling() {
    let input = "30, 50, 99";
    let res = parse_scaling(input);
    assert_eq!(
        res.unwrap(),
        [Scale::Small(30), Scale::Medium(50), Scale::Large(99)]
    )
}

#[test]
fn test_parse_scaling_separator_styles() {
    let expected = [Scale::Small(30), Scale::Medium(50), Scale::Large(99)];
    assert_eq!(parse_scaling("30 50 99").unwrap(), expected);
    assert_eq!(parse_scaling("30,50,99").unwrap(), expected);
    assert_eq!(parse_scaling("30, 50,99").unwrap(), expected);
    assert_eq!(parse_scaling("  30 ,, 50   99 ").unwrap(), expected);
}

#[test]
fn test_parse_scaling_discards_noise() {
    let expected = [Scale::Small(30), Scale::Medium(50), Scale::Large(99)];
    assert_eq!(parse_scaling("foo 30 bar 50, 99").unwrap(), expected);
    assert_eq!(parse_scaling("+30, 50, 99").unwrap(), expected);
}

#[test]
fn test_parse_scaling_wrong_count() {
    let msg = "Scaling arg should be three unsigned integers separated by space or commas, I.E. --scale 10, 50, 75";
    assert_eq!(parse_scaling("30, 50").unwrap_err(), msg);
    assert_eq!(parse_scaling("30 50 99 10").unwrap_err(), msg);
    assert_eq!(parse_scaling("").unwrap_err(), msg);
    // A token whose value does not fit a u16 is noise, so only two numbers remain.
    assert_eq!(parse_scaling("30 50 99999").unwrap_err(), msg);
    // A glued-on letter spoils the whole token.
    assert_eq!(parse_scaling("30 50 99x").unwrap_err(), msg);
}

#[test]
fn test_scale_res() {
    let res = Resolution {
        width: 1000,
        height: 1000,
    };

    let scaled = res.scale(50);

    assert_eq!(
        scaled,
        Resolution {
            width: 500,
            height: 500
        }
    );
}

#[test]
fn test_scale_res_truncates() {
    let res = Resolution {
        width: 1000,
        height: 1000,
    };
    assert_eq!(
        res.scale(33),
        Resolution {
            width: 330,
            height: 330
        }
    );
    let odd = Resolution {
        width: 999,
        height: 101,
    };
    // 999 * 33 = 32967 and 101 * 33 = 3333, both cut, not rounded.
    assert_eq!(
        odd.scale(33),
        Resolution {
            width: 329,
            height: 33
        }
    );
}

#[test]
fn test_scale_res_enlarges() {
    let res = Resolution {
        width: 640,
        height: 480,
    };
    assert_eq!(
        res.scale(150),
        Resolution {
            width: 960,
            height: 720
        }
    );
}

#[test]
fn test_scale_inner() {
    assert_eq!(Scale::Small(10).inner(), 10);
    assert_eq!(Scale::Medium(40).inner(), 40);
    assert_eq!(Scale::Large(80).inner(), 80);
}

#[test]
fn test_res_to_image() {
    let res = Resolution {
        width: 1000,
        height: 1000,
    };

    let scaling = [Scale::Small(10), Scale::Medium(40), Scale::Large(80)];

    let image = res.to_image(&scaling);

    assert_eq!(
        image,
        Image {
            original: res,
            small: Resolution {
                width: 100,
                height: 100
            },
            medium: Resolution {
                width: 400,
                height: 400
            },
            large: Resolution {
                width: 800,
                height: 800
            }
        }
    );
}

#[test]
fn test_res_to_image_order_independent() {
    let res = Resolution {
        width: 1000,
        height: 500,
    };
    let ordered = [Scale::Small(10), Scale::Medium(40), Scale::Large(80)];
    let shuffled = [Scale::Large(80), Scale::Small(10), Scale::Medium(40)];
    assert_eq!(res.to_image(&ordered), res.to_image(&shuffled));
}
