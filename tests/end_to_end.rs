use image::{DynamicImage, GenericImageView, RgbaImage};
use texture_extract::atlas_parser::parse;
use texture_extract::driver::{crop_plan, Angle};
use texture_extract::plist_frames::parse_plist_frames;
use texture_extract::Frame;

fn crop_sizes(frames: Vec<Frame>) -> Vec<(u32, u32, u32, u32)> {
    let sheet = DynamicImage::ImageRgba8(RgbaImage::new(64, 48));
    frames
        .into_iter()
        .map(|f| {
            let (w, h) = (f.rect.2, f.rect.3);
            let plan = crop_plan(f, false, Angle::Deg90);
            let out = sheet.crop_imm(plan.x, plan.y, plan.width, plan.height);
            assert_eq!(out.dimensions(), (plan.width, plan.height));
            (w, h, out.width(), out.height())
        })
        .collect()
}

#[test]
fn atlas_sheet_to_images() {
    let text = "sheet.png\nsize: 64, 48\nformat: RGBA8888\nup\n  rotate: false\n  xy: 0, 0\n  size: 10, 20\nside\n  rotate: true\n  xy: 20, 0\n  size: 30, 5\n";
    let sizes = crop_sizes(parse(text));
    assert_eq!(sizes, vec![(10, 20, 10, 20), (30, 5, 5, 30)]);
}

#[test]
fn plist_sheet_to_images() {
    let xml = "<?xml version=\"1.0\" encoding=\"UTF-8\"?>\n<plist version=\"1.0\"><dict><key>frames</key><dict><key>a</key><dict><key>frame</key><string>{{1,2},{12,7}}</string><key>rotated</key><true/></dict><key>b</key><dict><key>frame</key><string>{{20,20},{4,9}}</string></dict></dict></dict></plist>";
    let sizes = crop_sizes(parse_plist_frames(xml.as_bytes()).unwrap());
    assert_eq!(sizes, vec![(12, 7, 7, 12), (4, 9, 4, 9)]);
}

#[test]
fn turned_crop_has_logical_orientation() {
    let sheet = DynamicImage::ImageRgba8(RgbaImage::new(64, 48));
    let f = Frame { name: "r".to_string(), rect: (0, 0, 16, 8), offset: (0, 0), rotated: true };
    let plan = crop_plan(f, true, Angle::Deg270);
    let out = sheet.crop_imm(plan.x, plan.y, plan.width, plan.height);
    assert_eq!(out.dimensions(), (8, 16));
    assert_eq!(plan.turn, Some(Angle::Deg270));
    assert_eq!(out.rotate270().dimensions(), (16, 8));
}
