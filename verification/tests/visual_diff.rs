use termproof::result::AssertionResult;
use termproof::visual_diff::{
    base64_encode, baseline_path, diff_path, html_escape, same_pixels, screenshot_suffix, side_by_side_svg,
    three_panel_diff, visual_diff_assertion, BaselineState, Raster,
};

#[test]
fn base64_pads_partial_groups() {
    assert_eq!(base64_encode(b""), "");
    assert_eq!(base64_encode(b"f"), "Zg==");
    assert_eq!(base64_encode(b"fo"), "Zm8=");
    assert_eq!(base64_encode(b"foo"), "Zm9v");
    assert_eq!(base64_encode(b"foobar"), "Zm9vYmFy");
    assert_eq!(base64_encode(&[0xfb, 0xff]), "+/8=");
}

#[test]
fn html_special_characters_are_escaped() {
    assert_eq!(html_escape("a&b<c>\"d'"), "a&amp;b&lt;c&gt;&quot;d'");
}

#[test]
fn baselines_live_per_recipe_and_renderer() {
    assert_eq!(baseline_path("base", "my recipe", "svg", "svg"), "base/my-recipe/svg/final.svg");
    assert_eq!(baseline_path("base/", "", "a/b", ".png"), "base/default/a-b/final.png");
}

#[test]
fn the_suffix_is_the_extension_or_svg() {
    assert_eq!(screenshot_suffix("run/screenshot.PNG"), "PNG");
    assert_eq!(screenshot_suffix("run/screenshot"), "svg");
    assert_eq!(screenshot_suffix("run/.hidden"), "svg");
}

#[test]
fn the_diff_sits_beside_the_screenshot() {
    assert_eq!(diff_path("run/shot.png"), "run/visual-diff.png");
    assert_eq!(diff_path("run/shot.svg"), "run/visual-diff.svg");
    assert_eq!(diff_path("shot.txt"), "visual-diff.svg");
}

#[test]
fn each_outcome_reports_its_own_verdict() {
    let a = visual_diff_assertion(BaselineState::Missing, "b.svg", "s.svg", "");
    assert_eq!(
        a,
        AssertionResult {
            name: "visual_diff".to_string(),
            passed: false,
            detail: "missing baseline: b.svg; run with --update-baselines to create it".to_string(),
        }
    );
    let a = visual_diff_assertion(BaselineState::Differs, "b.svg", "s.svg", "d.svg");
    assert!(!a.passed);
    assert_eq!(a.detail, "visual regression: baseline=b.svg actual=s.svg diff=d.svg");
    assert!(visual_diff_assertion(BaselineState::Matches, "b.svg", "s", "").passed);
    let a = visual_diff_assertion(BaselineState::Updated, "b.svg", "s", "");
    assert!(a.passed);
    assert_eq!(a.detail, "updated baseline: b.svg");
    let a = visual_diff_assertion(BaselineState::NoScreenshot, "", "", "");
    assert_eq!(a.detail, "no screenshot artifact to compare");
}

#[test]
fn the_side_by_side_embeds_both_pictures() {
    let svg = side_by_side_svg("b.svg", b"<a>", "s.png", b"x");
    assert!(svg.starts_with("<svg xmlns=\"http://www.w3.org/2000/svg\" width=\"1200\" height=\"620\""));
    assert!(svg.contains("href=\"data:image/svg+xml;base64,PGE+\""));
    assert!(svg.contains("href=\"data:image/png;base64,eA==\""));
    assert!(svg.ends_with("</svg>\n"));
}

fn raster(width: u32, height: u32, fill: (u8, u8, u8)) -> Raster {
    Raster::new(width, height, vec![vec![fill; width as usize]; height as usize]).unwrap()
}

#[test]
fn a_raster_must_have_its_shape() {
    assert!(Raster::new(2, 1, vec![vec![(0, 0, 0)]]).is_none());
    assert!(Raster::new(1, 2, vec![vec![(0, 0, 0)]]).is_none());
    assert!(Raster::new(0, 0, vec![]).is_some());
}

#[test]
fn pictures_match_only_pixel_for_pixel() {
    assert!(same_pixels(&raster(2, 2, (1, 2, 3)), &raster(2, 2, (1, 2, 3))));
    assert!(!same_pixels(&raster(2, 2, (1, 2, 3)), &raster(2, 2, (1, 2, 4))));
    assert!(!same_pixels(&raster(2, 2, (1, 2, 3)), &raster(2, 1, (1, 2, 3))));
}

#[test]
fn the_three_panels_sit_under_a_white_strip() {
    let base = raster(2, 1, (10, 20, 30));
    let actual = raster(1, 2, (15, 5, 30));
    let d = three_panel_diff(&base, &actual);
    assert_eq!((d.width(), d.height()), (6, 30));
    assert_eq!(d.pixel(0, 0), (255, 255, 255));
    assert_eq!(d.pixel(1, 28), (10, 20, 30));
    assert_eq!(d.pixel(1, 29), (255, 255, 255));
    assert_eq!(d.pixel(2, 29), (15, 5, 30));
    assert_eq!(d.pixel(3, 28), (255, 255, 255));
    assert_eq!(d.pixel(4, 28), (5, 15, 0));
    assert_eq!(d.pixel(5, 28), (245, 235, 225));
}
