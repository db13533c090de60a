use card_reader::matcher::{check_equal, check_match};
use card_reader::normalize::{format_string, format_string_lite};

fn s(t: &str) -> String {
    t.to_string()
}

#[test]
fn equal_truncated_prefix() {
    assert!(check_equal(&s("sailor moon"), &s("sailor"), &true));
    assert!(!check_equal(&s("sailor moon"), &s("sailor"), &false));
}

#[test]
fn equal_is_reflexive() {
    for t in ["", "naruto", "one piece", "a...b"] {
        assert!(check_equal(&s(t), &s(t), &false));
        let (_, n) = format_string(s(t));
        assert!(check_equal(&n, &n, &false));
    }
}

#[test]
fn match_single_confusable_substitution() {
    assert!(check_match(&s("naruto"), &s("naruto"), &false));
    assert!(check_match(&s("narut0"), &s("naruto"), &false));
    assert!(!check_match(&s("nar0t0"), &s("naruto"), &false));
}

#[test]
fn match_rejects_unlisted_pair() {
    assert!(!check_match(&s("naruto"), &s("narvto"), &false));
}

#[test]
fn match_confusable_table_is_symmetric() {
    assert!(check_match(&s("ooo"), &s("0oo"), &false));
    assert!(check_match(&s("0oo"), &s("ooo"), &false));
    assert!(!check_match(&s("0o0"), &s("ooo"), &false));
    assert!(check_match(&s("5ailor"), &s("sailor"), &false));
    assert!(check_match(&s("l|ght"), &s("light"), &false));
}

#[test]
fn match_two_differences_never_match() {
    assert!(!check_match(&s("s0i1or"), &s("sailor"), &false));
    assert!(!check_match(&s("s0i1or moon"), &s("sailor"), &true));
}

#[test]
fn match_truncated_after_substitution() {
    assert!(check_match(&s("sailor m00n"), &s("sa1lor"), &true));
    assert!(!check_match(&s("sailor m00n"), &s("sa1lor"), &false));
}

#[test]
fn normalize_strips_and_marks_truncation() {
    assert_eq!(format_string(s("Sailor Moon...")), (true, s("SailorMoon")));
    assert_eq!(format_string(s("naruto..")), (true, s("naruto")));
    assert_eq!(format_string(s("naruto.....")), (true, s("naruto")));
    assert_eq!(format_string(s("naruto")), (false, s("naruto")));
    assert_eq!(format_string(s("re:zero!")), (false, s("rezero")));
    assert_eq!(format_string(s("a.....b")), (false, s("a...b")));
    assert_eq!(format_string(s("..")), (true, s("")));
}

#[test]
fn normalize_is_idempotent() {
    for t in ["Sailor Moon...", "naruto..", "a.....b", "x.", "...", "a .. b .."] {
        let (_, once) = format_string(s(t));
        let (dot, twice) = format_string(once.clone());
        assert_eq!(twice, once);
        assert!(!dot);
    }
}

#[test]
fn lite_normalization() {
    assert_eq!(format_string_lite("Naruto Shippuden..."), (true, s("narutoshippuden.")));
    assert_eq!(format_string_lite("One-Piece 2"), (false, s("onepiece")));
    assert_eq!(format_string_lite("a.....b"), (false, s("a.b")));
    assert_eq!(format_string_lite("a......b"), (false, s("a..b")));
    let (_, once) = format_string_lite("x.....y ...");
    assert_eq!(format_string_lite(&once).1, once);
    assert_eq!(format_string_lite(""), (false, s("")));
}
