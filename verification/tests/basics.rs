use wordfeud_ocr::gray::GrayImage;
use wordfeud_ocr::recognizer::topright;
use wordfeud_ocr::rect::Rect;
use wordfeud_ocr::text::{four, template};

#[test]
fn test_four() {
    let n = four();
    println!("n: {}", n);
    assert_eq!(n, 4);
}

#[test]
fn test_template() {
    let template = template("A");
    println!("{}", template);
    assert_eq!(template, "templates/A.png");
}

#[test]
fn layout_test_subimg() {
    let img = GrayImage::filled(540, 1080, 0).unwrap();
    let sub = img.crop(Rect { x: 10, y: 100, width: 500, height: 100 });
    println!("{:?} {:?}", img.dimensions(), sub.dimensions());
    assert_eq!(img.dimensions(), (540, 1080));
    assert_eq!(sub.dimensions(), (500, 100));
}

#[test]
fn recognizer_test_topright() {
    let cell = Rect { x: 0, y: 0, width: 67, height: 67 };
    let topright = topright(cell);
    println!("{:?} {:?}", cell, topright);
    assert_eq!(topright, Rect { x: 49, y: 4, width: 12, height: 18 });
}
