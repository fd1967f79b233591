use spotiamp::order::sort_u64;
use spotiamp::wsz::{crop, is_light_titlebar, locate_title_plate, titlebar_color, Pixmap};

fn sheet(width: u32, height: u32, pixel: impl Fn(u32, u32) -> [u8; 3]) -> Pixmap {
    let mut data = Vec::new();
    for y in 0..height {
        for x in 0..width {
            data.extend_from_slice(&pixel(x, y));
        }
    }
    Pixmap { width, height, channels: 3, data }
}

fn barred(plate: std::ops::Range<u32>) -> impl Fn(u32, u32) -> [u8; 3] {
    move |x, y| {
        if plate.contains(&x) {
            [100, 100, 100]
        } else if y % 2 == 0 {
            [255, 255, 255]
        } else {
            [0, 0, 0]
        }
    }
}

#[test]
fn plate_is_the_widest_flat_run() {
    let s = sheet(160, 20, barred(60..100));
    assert_eq!(locate_title_plate(&s), Some(79));
}

#[test]
fn smooth_titlebar_has_no_plate() {
    let s = sheet(160, 20, |_, _| [90, 90, 90]);
    assert_eq!(locate_title_plate(&s), None);
}

#[test]
fn small_sheet_has_no_plate() {
    assert_eq!(locate_title_plate(&sheet(79, 20, barred(30..50))), None);
    assert_eq!(locate_title_plate(&sheet(160, 11, barred(60..100))), None);
}

#[test]
fn crop_is_clipped_to_the_image() {
    let s = sheet(4, 3, |x, y| [x as u8, y as u8, 7]);
    let c = crop(&s, 2, 1, 5, 5);
    assert_eq!((c.width, c.height), (2, 2));
    assert_eq!(c.data, vec![2, 1, 7, 3, 1, 7, 2, 2, 7, 3, 2, 7]);
    let e = crop(&s, 9, 9, 2, 2);
    assert_eq!((e.width, e.height), (0, 0));
    assert!(e.data.is_empty());
}

#[test]
fn titlebar_colour_averages_the_fill_tile() {
    let s = sheet(200, 30, |x, _| if x < 127 { [0, 0, 0] } else { [10, 20, 31] });
    assert_eq!(titlebar_color(&s, false), Some((10, 20, 31)));
    let g = sheet(90, 30, |x, _| if x % 2 == 0 { [0, 0, 0] } else { [1, 3, 255] });
    // GEN fill is x 82..90: four of each, floor of the mean
    assert_eq!(titlebar_color(&g, true), Some((0, 1, 127)));
    assert_eq!(titlebar_color(&sheet(80, 20, |_, _| [1, 1, 1]), true), None);
}

#[test]
fn title_text_contrast_threshold() {
    assert!(is_light_titlebar(200, 200, 200));
    assert!(!is_light_titlebar(20, 30, 40));
    // just over and just under 140 in luminance
    assert!(is_light_titlebar(141, 140, 140));
    assert!(!is_light_titlebar(140, 140, 140));
}

#[test]
fn sorting_keeps_every_value() {
    assert_eq!(sort_u64(&vec![5, 1, 4, 1, 0]), vec![0, 1, 1, 4, 5]);
    assert!(sort_u64(&vec![]).is_empty());
}
