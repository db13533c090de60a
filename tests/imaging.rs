use card_reader::pipeline::{
    assemble_captcha, captcha_regions, clean_text, drop_regions, engine_settings, plan_slots, CAPTCHA_POOL,
    DROP_POOL,
};
use card_reader::preprocess::{contrast_boost, preprocess, region_png, CropRegion, FieldKind, RgbFrame};

#[test]
fn boost_saturates() {
    assert_eq!(contrast_boost(0), 0);
    assert_eq!(contrast_boost(85), 255);
    assert_eq!(contrast_boost(255), 255);
    assert_eq!(contrast_boost(10), 30);
    assert_eq!(contrast_boost(86), 255);
}

fn frame(width: u32, height: u32, rgb: [u8; 3]) -> RgbFrame {
    let mut pixels = Vec::new();
    for _ in 0..width * height {
        pixels.extend_from_slice(&rgb);
    }
    RgbFrame { width, height, pixels }
}

#[test]
fn padding_size() {
    let f = frame(20, 10, [10, 10, 10]);
    let r = CropRegion { x: 2, y: 3, width: 5, height: 4, kind: FieldKind::Text };
    let g = preprocess(&f, r);
    assert_eq!((g.width, g.height), (19, 18));
    assert_eq!(g.pixels.len(), 19 * 18);
    let empty = CropRegion { x: 0, y: 0, width: 0, height: 0, kind: FieldKind::Text };
    let g0 = preprocess(&f, empty);
    assert_eq!((g0.width, g0.height), (14, 14));
    assert!(g0.pixels.iter().all(|&p| p == 255));
}

#[test]
fn preprocess_border_and_interior() {
    // pure red: luminance (2126 * 20) / 10000 = 4, boosted to 12
    let f = frame(4, 4, [20, 0, 0]);
    let r = CropRegion { x: 1, y: 1, width: 2, height: 2, kind: FieldKind::Text };
    let g = preprocess(&f, r);
    let w = g.width as usize;
    assert_eq!(g.pixels[0], 255);
    assert_eq!(g.pixels[7 * w + 6], 255);
    assert_eq!(g.pixels[7 * w + 7], 12);
    assert_eq!(g.pixels[8 * w + 8], 12);
    assert_eq!(g.pixels[9 * w + 9], 255);
}

#[test]
fn preprocess_reads_the_region() {
    let mut f = frame(3, 1, [0, 0, 0]);
    f.pixels[3..6].copy_from_slice(&[50, 50, 50]);
    let r = CropRegion { x: 1, y: 0, width: 1, height: 1, kind: FieldKind::Text };
    let g = preprocess(&f, r);
    assert_eq!(g.pixels[7 * 15 + 7], 150);
}

#[test]
fn region_png_is_png() {
    let f = frame(8, 8, [30, 60, 90]);
    let r = CropRegion { x: 1, y: 1, width: 3, height: 2, kind: FieldKind::Text };
    let png = region_png(&f, r);
    assert_eq!(&png[..8], &[0x89, b'P', b'N', b'G', 0x0d, 0x0a, 0x1a, 0x0a]);
}

#[test]
fn layouts() {
    let c = captcha_regions();
    assert_eq!(c.len(), 3);
    assert_eq!(c[2], CropRegion { x: 41, y: 430, width: 108, height: 27, kind: FieldKind::NumericId });
    let d = drop_regions();
    assert_eq!(d.len(), 9);
    assert_eq!(d[4], CropRegion { x: 704, y: 458, width: 290, height: 26, kind: FieldKind::Text });
    assert_eq!(CAPTCHA_POOL, 3);
    assert_eq!(DROP_POOL, 9);
}

#[test]
fn slots_follow_pool() {
    let c = captcha_regions();
    let slots = plan_slots(5, &c);
    assert_eq!(slots.len(), 5);
    assert_eq!(slots[1], Some(c[1]));
    assert_eq!(slots[3], None);
    let few = plan_slots(2, &c);
    assert_eq!(few, vec![Some(c[0]), Some(c[1])]);
}

#[test]
fn settings_per_kind() {
    let n = engine_settings(FieldKind::NumericId);
    assert_eq!(n.whitelist, "1234567890");
    assert_eq!(n.blacklist, None);
    let t = engine_settings(FieldKind::Text);
    assert_eq!(t.whitelist, "");
    assert_eq!(t.blacklist, Some("|[]*ç€"));
}

#[test]
fn cleaned_text() {
    assert_eq!(clean_text("  Sailor MOON \n"), "sailor moon");
    assert_eq!(clean_text(""), "");
    assert_eq!(clean_text("É1"), "É1");
    assert_eq!(clean_text("\u{3000}Abc\u{a0}\t"), "abc");
}

#[test]
fn captcha_record() {
    let texts: Vec<String> = ["naruto", "naruto...", "123"].iter().map(|t| t.to_string()).collect();
    let c = assemble_captcha(&texts);
    assert_eq!(c.name, "naruto");
    assert_eq!(c.series, "naruto...");
    assert_eq!(c.gen, Some("123".to_string()));
    assert_eq!(c.wl, None);
}
