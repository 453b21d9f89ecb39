use master_duel_bgms::fonts::{nearest_weight, system_font, title_face};
use master_duel_bgms::renderer::{
    create_background, glyph_pixel, pixel_noise, Canvas, BAR_FILL_OCCUPANCY, BAR_SHELL_OCCUPANCY,
};
use tiny_skia::Pixmap;

#[test]
fn spectrum_bars_are_dense_and_nearly_rectangular() {
    let fill = BAR_FILL_OCCUPANCY as f32 / 100.0;
    let shell = BAR_SHELL_OCCUPANCY as f32 / 100.0;
    let radius = 246.0;
    let slot_width = std::f32::consts::TAU * radius / 72.0;
    let visible_gap = slot_width * (1.0 - fill);

    assert!(visible_gap < 3.0);
    assert!(slot_width * shell > slot_width * 0.97);
}

#[test]
fn backgrounds_are_painted_pixel_by_pixel() {
    let shade = |x: u32, y: u32| (x as u8, y as u8, (10 * y + x) as u8);
    let background = create_background(3, 2, shade).unwrap();
    assert_eq!((background.width(), background.height()), (3, 2));
    assert_eq!(
        background.data(),
        [
            0, 0, 0, 255, 1, 0, 1, 255, 2, 0, 2, 255, 0, 1, 10, 255, 1, 1, 11, 255, 2, 1, 12, 255
        ]
    );
}

#[test]
fn backgrounds_need_a_size() {
    let shade = |_: u32, _: u32| (0, 0, 0);
    assert!(create_background(0, 2, shade).is_none());
    assert!(create_background(2, 0, shade).is_none());
    assert!(create_background(1 << 30, 1, shade).is_none());
}

#[test]
fn frames_start_from_the_background() {
    let background = create_background(2, 1, |x: u32, _: u32| (x as u8, 7, 9)).unwrap();
    let mut canvas = Canvas::new(background);
    assert_eq!(canvas.frame.data(), [0, 7, 9, 255, 1, 7, 9, 255]);
    canvas.frame.data_mut()[4] = 99;
    canvas.clear();
    assert_eq!(canvas.frame.data(), [0, 7, 9, 255, 1, 7, 9, 255]);
    assert_eq!(canvas.background.data(), [0, 7, 9, 255, 1, 7, 9, 255]);
}

#[test]
fn earlier_frames_leave_no_trace() {
    let shade = |x: u32, y: u32| (x as u8, y as u8, 3);
    let mut used = Canvas::new(create_background(4, 3, shade).unwrap());
    let fresh = Canvas::new(create_background(4, 3, shade).unwrap());
    for byte in used.frame.data_mut() {
        *byte = 77;
    }
    used.clear();
    assert_eq!(used.frame.data(), fresh.frame.data());
    assert_eq!(used.frame.data().len(), 48);
}

#[test]
fn frames_are_drawn_on_the_background() {
    let shade = |x: u32, y: u32| (x as u8, y as u8, 3);
    let mut used = Canvas::new(create_background(4, 3, shade).unwrap());
    let mut fresh = Canvas::new(create_background(4, 3, shade).unwrap());
    let raise = |page: &mut Pixmap| {
        for byte in page.data_mut() {
            *byte = byte.saturating_add(1);
        }
    };
    used.draw(|page: &mut Pixmap| page.data_mut().fill(77));
    assert_eq!(used.frame.data(), [77; 48]);
    used.draw(raise);
    fresh.draw(raise);
    assert_eq!(used.frame.data(), fresh.frame.data());
    assert_eq!(used.frame.data()[..8], [1, 1, 4, 255, 2, 1, 4, 255]);
    assert_eq!(used.background.data()[..4], [0, 0, 3, 255]);
}

#[test]
fn glyphs_are_clipped() {
    assert_eq!(glyph_pixel(-1, 2, 3, 0, 10, 10), Some(88));
    assert_eq!(glyph_pixel(0, 0, 9, 9, 10, 10), Some(396));
    assert_eq!(glyph_pixel(-1, 2, 0, 0, 10, 10), None);
    assert_eq!(glyph_pixel(0, -3, 0, 2, 10, 10), None);
    assert_eq!(glyph_pixel(9, 0, 1, 0, 10, 10), None);
    assert_eq!(glyph_pixel(0, 9, 0, 1, 10, 10), None);
    assert_eq!(glyph_pixel(i32::MAX, 0, u32::MAX, 0, 10, 10), None);
}

#[test]
fn noise_is_a_hash_of_the_place() {
    let hash = |x: u32, y: u32| {
        let mut value = x.wrapping_mul(0x9e37_79b9) ^ y.wrapping_mul(0x85eb_ca6b) ^ 42;
        value ^= value >> 16;
        value = value.wrapping_mul(0x7feb_352d);
        value ^ (value >> 15)
    };
    for (x, y) in [(0, 0), (1, 0), (0, 1), (2_559, 1_439), (u32::MAX, u32::MAX)] {
        assert_eq!(pixel_noise(x, y), hash(x, y));
    }
    assert_ne!(pixel_noise(1, 0), pixel_noise(0, 1));
}

#[test]
fn the_first_nearest_weight_is_taken() {
    assert_eq!(nearest_weight(&vec![400, 900, 600, 800, 600], 700), Some(2));
    assert_eq!(nearest_weight(&vec![400, 700], 700), Some(1));
    assert_eq!(nearest_weight(&vec![0], u16::MAX), Some(0));
    assert_eq!(nearest_weight(&Vec::new(), 700), None);
}

#[test]
fn a_database_without_faces_has_no_font() {
    let mut database = fontdb::Database::new();
    assert!(system_font(&mut database).is_none());
    assert_eq!(database.family_name(&fontdb::Family::SansSerif), "Noto Sans");
    assert!(title_face(None, &Vec::new()).is_none());
}

fn face(family: &str, weight: u16) -> fontdb::FaceInfo {
    fontdb::FaceInfo {
        id: fontdb::ID::dummy(),
        source: fontdb::Source::Binary(std::sync::Arc::new(vec![0_u8])),
        index: 0,
        families: vec![(family.to_string(), fontdb::Language::English_UnitedStates)],
        post_script_name: family.to_string(),
        style: fontdb::Style::Normal,
        weight: fontdb::Weight(weight),
        stretch: fontdb::Stretch::Normal,
        monospaced: false,
    }
}

fn weight_of(database: &fontdb::Database, id: Option<fontdb::ID>) -> (String, u16) {
    let info = database.face(id.unwrap()).unwrap();
    (info.families[0].0.clone(), info.weight.0)
}

#[test]
fn the_wanted_family_is_preferred() {
    let mut database = fontdb::Database::new();
    database.push_face_info(face("Other", 700));
    database.push_face_info(face("Noto Sans", 400));
    database.push_face_info(face("Noto Sans", 800));
    let id = system_font(&mut database);
    assert_eq!(weight_of(&database, id), ("Noto Sans".to_string(), 800));
}

#[test]
fn another_family_is_taken_by_weight() {
    let mut database = fontdb::Database::new();
    database.push_face_info(face("Thin", 100));
    database.push_face_info(face("Half", 600));
    database.push_face_info(face("Heavy", 900));
    let id = system_font(&mut database);
    assert_eq!(weight_of(&database, id), ("Half".to_string(), 600));
}
