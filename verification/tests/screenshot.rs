use wordfeud_ocr::error::Error;
use wordfeud_ocr::gray::GrayImage;
use wordfeud_ocr::layout::Layout;
use wordfeud_ocr::recognizer::Board;
use wordfeud_ocr::rect::Rect;
use wordfeud_ocr::segment::Segment;

const PITCH: u32 = 70;
const TILE: u32 = 68;
const TOP: u32 = 10;
const WIDTH: u32 = 2 + 15 * PITCH;
const RACK_Y: u32 = TOP + 15 * PITCH + 9 + 3;
const HEIGHT: u32 = RACK_Y + TILE + 4;

struct Canvas {
    width: u32,
    height: u32,
    data: Vec<u8>,
}

fn canvas(width: u32, height: u32, value: u8) -> Canvas {
    Canvas { width, height, data: vec![value; (width * height) as usize] }
}

fn fill(c: &mut Canvas, x: u32, y: u32, w: u32, h: u32, value: u8) {
    for j in y..y + h {
        for i in x..x + w {
            c.data[(j * c.width + i) as usize] = value;
        }
    }
}

fn letter_a(c: &mut Canvas, x: u32, y: u32, ink: u8) {
    fill(c, x + 5, y + 5, 10, 20, ink);
    fill(c, x + 20, y + 30, 10, 15, ink);
}

fn letter_b(c: &mut Canvas, x: u32, y: u32, ink: u8) {
    fill(c, x + 10, y + 10, 20, 10, ink);
    fill(c, x + 4, y + 40, 6, 6, ink);
}

fn mark_2l(c: &mut Canvas, x: u32, y: u32, ink: u8) {
    fill(c, x + 3, y + 3, 12, 8, ink);
    fill(c, x + 30, y + 14, 10, 9, ink);
}

fn mark_3w(c: &mut Canvas, x: u32, y: u32, ink: u8) {
    fill(c, x + 20, y + 2, 6, 22, ink);
}

fn into_image(c: Canvas) -> GrayImage {
    GrayImage::from_raw(c.width, c.height, c.data).unwrap()
}

fn letter_template(draw: fn(&mut Canvas, u32, u32, u8)) -> GrayImage {
    let mut c = canvas(38, 50, 255);
    draw(&mut c, 0, 0, 0);
    into_image(c)
}

fn bonus_template(draw: fn(&mut Canvas, u32, u32, u8)) -> GrayImage {
    let mut c = canvas(46, 26, 100);
    draw(&mut c, 0, 0, 200);
    into_image(c)
}

fn board() -> Board {
    let templates = vec![
        (String::from("A"), letter_template(letter_a)),
        (String::from("B"), letter_template(letter_b)),
        (String::from("A2"), letter_template(letter_a)),
    ];
    let bonus_templates = vec![
        (String::from("2L"), bonus_template(mark_2l)),
        (String::from("3W"), bonus_template(mark_3w)),
    ];
    Board::new(templates, bonus_templates).unwrap()
}

fn square(row: u32, col: u32) -> (u32, u32) {
    (2 + col * PITCH, TOP + row * PITCH)
}

fn tile(c: &mut Canvas, x: u32, y: u32, draw: fn(&mut Canvas, u32, u32, u8), wildcard: bool) {
    fill(c, x, y, TILE, TILE, 220);
    draw(c, x + 7, y + 9, 0);
    if !wildcard {
        fill(c, x + 52, y + 8, 4, 6, 0);
    }
}

fn screenshot(extra_width: u32, with_rack: bool) -> GrayImage {
    into_image(drawing(extra_width, with_rack))
}

fn drawing(extra_width: u32, with_rack: bool) -> Canvas {
    let width = WIDTH + extra_width;
    let mut c = canvas(width, HEIGHT, 24);
    fill(&mut c, 0, 0, width, 8, 51);
    for row in 0..15 {
        for col in 0..15 {
            let (x, y) = square(row, col);
            fill(&mut c, x, y, TILE, TILE, 40);
        }
    }
    let (x, y) = square(2, 3);
    tile(&mut c, x, y, letter_a, false);
    let (x, y) = square(7, 8);
    tile(&mut c, x, y, letter_b, true);
    let (x, y) = square(10, 0);
    fill(&mut c, x, y, TILE, TILE, 255);
    let (x, y) = square(0, 3);
    fill(&mut c, x, y, TILE, TILE, 100);
    mark_2l(&mut c, x + 9, y + 22, 200);
    let (x, y) = square(14, 14);
    fill(&mut c, x, y, TILE, TILE, 100);
    mark_3w(&mut c, x + 9, y + 22, 200);
    let (x, y) = square(7, 7);
    fill(&mut c, x, y, TILE, TILE, 100);
    fill(&mut c, 0, TOP + 15 * PITCH, width, 9, 51);
    if with_rack {
        tile(&mut c, 2, RACK_Y, letter_b, false);
        fill(&mut c, 2 + PITCH, RACK_Y, TILE, TILE, 255);
        tile(&mut c, 2 + 2 * PITCH, RACK_Y, letter_a, true);
    }
    c
}

fn row_text(row: &[String]) -> String {
    row.join("")
}

#[test]
fn synthetic_screenshot_is_segmented() {
    let img = screenshot(0, true);
    let layout = Layout::new(&img).segment().unwrap();
    assert_eq!(layout.screen, Rect { x: 0, y: 0, width: WIDTH, height: HEIGHT });
    assert_eq!(layout.board_area, Rect { x: 0, y: TOP, width: WIDTH, height: 14 * PITCH + 67 });
    assert_eq!(layout.rack_area, Rect { x: 0, y: RACK_Y, width: WIDTH, height: TILE });
    assert_eq!(layout.rows.len(), 15);
    assert_eq!(layout.cols.len(), 15);
    for k in 0..15usize {
        let first = (TOP + k as u32 * PITCH) as usize;
        assert_eq!(layout.rows[k], (first, first + 67));
        let first = (2 + k as u32 * PITCH) as usize;
        assert_eq!(layout.cols[k], (first, first + 67));
    }
    assert_eq!(layout.rack_rows, vec![(RACK_Y as usize, (RACK_Y + 67) as usize)]);
    assert_eq!(layout.rack_cols, vec![(2, 69), (72, 139), (142, 209)]);
}

#[test]
fn synthetic_screenshot_is_read() {
    let img = screenshot(0, true);
    let res = board().recognize_screenshot(&img).unwrap();
    assert_eq!(res.board_area, Rect { x: 0, y: TOP, width: WIDTH, height: 14 * PITCH + 67 });
    assert_eq!(res.rack_area, Rect { x: 0, y: RACK_Y, width: WIDTH, height: TILE });

    assert_eq!(res.tiles_ocr.0.len(), 15);
    for (r, row) in res.tiles_ocr.0.iter().enumerate() {
        let expected = match r {
            2 => "...a...........",
            7 => "........B......",
            10 => "*..............",
            _ => "...............",
        };
        assert_eq!(row.len(), 15);
        assert_eq!(row_text(row), expected);
    }

    assert_eq!(res.grid_ocr.0.len(), 15);
    for (r, row) in res.grid_ocr.0.iter().enumerate() {
        assert_eq!(row.len(), 15);
        for (c, symbol) in row.iter().enumerate() {
            let expected = match (r, c) {
                (0, 3) => "2l",
                (14, 14) => "3w",
                (7, 7) => "ss",
                _ => "--",
            };
            assert_eq!(symbol, expected);
        }
    }

    assert_eq!(res.rack_ocr.0.len(), 1);
    assert_eq!(res.rack_ocr.0[0], vec!["b", "*", "A", ".", ".", ".", "."]);

    let tiles: Vec<(usize, String, u32, (u32, u32))> = res
        .tiles_stats
        .iter()
        .map(|s| (s.index, s.tag.clone(), s.min_value, s.min_value_location))
        .collect();
    assert_eq!(
        tiles,
        vec![
            (33, String::from("A"), 0, (1, 6)),
            (113, String::from("B"), 0, (1, 6)),
            (150, String::from("*"), 0, (0, 0)),
        ]
    );
    let grid: Vec<(usize, String, u32, (u32, u32))> = res
        .grid_stats
        .iter()
        .map(|s| (s.index, s.tag.clone(), s.min_value, s.min_value_location))
        .collect();
    assert_eq!(
        grid,
        vec![(3, String::from("2l"), 0, (1, 1)), (224, String::from("3w"), 0, (1, 1))]
    );
    let rack: Vec<(usize, String, u32, (u32, u32))> = res
        .rack_stats
        .iter()
        .map(|s| (s.index, s.tag.clone(), s.min_value, s.min_value_location))
        .collect();
    assert_eq!(
        rack,
        vec![
            (0, String::from("B"), 0, (1, 6)),
            (1, String::from("*"), 0, (0, 0)),
            (2, String::from("A"), 0, (1, 6)),
        ]
    );
}

#[test]
fn reading_twice_gives_the_same_result() {
    let img = screenshot(0, true);
    let b = board();
    let first = b.recognize_screenshot(&img).unwrap();
    let second = b.recognize_screenshot(&img).unwrap();
    assert_eq!(first.tiles_ocr.0, second.tiles_ocr.0);
    assert_eq!(first.grid_ocr.0, second.grid_ocr.0);
    assert_eq!(first.rack_ocr.0, second.rack_ocr.0);
    assert_eq!(first.tiles_ocr.to_text(), second.tiles_ocr.to_text());
    assert_eq!(first.board_area, second.board_area);
    assert_eq!(first.rack_area, second.rack_area);
    assert_eq!(first.tiles_stats.len(), second.tiles_stats.len());
    for (a, b) in first.tiles_stats.iter().zip(second.tiles_stats.iter()) {
        assert_eq!(a.index, b.index);
        assert_eq!(a.tag, b.tag);
        assert_eq!(a.min_value, b.min_value);
        assert_eq!(a.min_value_location, b.min_value_location);
    }
}

#[test]
fn missing_rack_fails_looking_for_it() {
    let img = screenshot(0, false);
    let r = Layout::new(&img).segment();
    assert!(matches!(r, Err(Error::LayoutFailed(Segment::LookForRack))));
    let r = board().recognize_screenshot(&img);
    assert!(matches!(r, Err(Error::LayoutFailed(Segment::LookForRack))));
}

#[test]
fn wide_screenshot_has_no_square_board() {
    let img = screenshot(32, true);
    let r = Layout::new(&img).segment();
    assert!(matches!(r, Err(Error::BoardNotSquare { width: 1084, height: 1047 })));
    let r = board().recognize_screenshot(&img);
    assert!(matches!(r, Err(Error::BoardNotSquare { width: 1084, height: 1047 })));
}

#[test]
fn slightly_wide_screenshot_still_has_a_square_board() {
    let img = screenshot(16, true);
    let layout = Layout::new(&img).segment().unwrap();
    assert_eq!(layout.board_area.width, 1068);
    assert_eq!(layout.board_area.height, 1047);
}

#[test]
fn empty_screenshot_fails_at_the_top_border() {
    let img = GrayImage::filled(40, 30, 24).unwrap();
    let r = Layout::new(&img).segment();
    assert!(matches!(r, Err(Error::LayoutFailed(Segment::LookForTopBorder(0)))));
    let img = GrayImage::filled(0, 0, 0).unwrap();
    let r = Layout::new(&img).segment();
    assert!(matches!(r, Err(Error::LayoutFailed(Segment::LookForTopBorder(0)))));
}

#[test]
fn templates_larger_than_the_region_make_cells_unreadable() {
    let img = screenshot(0, true);
    let big = GrayImage::filled(41, 62, 255).unwrap();
    let b = Board::new(vec![(String::from("A"), big)], Vec::new()).unwrap();
    assert!(matches!(b.recognize_screenshot(&img), Err(Error::CellUnreadable)));
}

#[test]
fn no_templates_make_cells_unreadable() {
    let img = screenshot(0, true);
    let b = Board::new(Vec::new(), Vec::new()).unwrap();
    assert!(matches!(b.recognize_screenshot(&img), Err(Error::CellUnreadable)));
}

#[test]
fn templates_of_different_sizes_are_refused() {
    let a = GrayImage::filled(38, 50, 255).unwrap();
    let b = GrayImage::filled(38, 49, 255).unwrap();
    assert!(Board::new(vec![(String::from("A"), a), (String::from("B"), b)], Vec::new()).is_none());
    let empty = GrayImage::filled(0, 0, 0).unwrap();
    assert!(Board::new(Vec::new(), vec![(String::from("2L"), empty)]).is_none());
    let broken = GrayImage { width: 3, height: 3, data: vec![0; 8] };
    assert!(Board::new(vec![(String::from("A"), broken)], Vec::new()).is_none());
}

#[test]
fn missing_board_column_fails_looking_for_it() {
    let mut c = drawing(0, true);
    fill(&mut c, 2 + 14 * PITCH, TOP, TILE, 15 * PITCH, 24);
    let img = into_image(c);
    let r = Layout::new(&img).segment();
    assert!(matches!(r, Err(Error::LayoutFailed(Segment::LookForRisingEdge(14)))));
}

#[test]
fn rack_tile_at_the_edge_fails_inside_it() {
    let mut c = drawing(0, true);
    fill(&mut c, WIDTH - 30, RACK_Y, 30, TILE, 220);
    let img = into_image(c);
    let r = Layout::new(&img).segment();
    assert!(matches!(r, Err(Error::LayoutFailed(Segment::InTile(3)))));
}

#[test]
fn full_rack_is_read() {
    let mut c = drawing(0, true);
    for k in 3..7 {
        tile(&mut c, 2 + k * PITCH, RACK_Y, letter_a, false);
    }
    let img = into_image(c);
    let layout = Layout::new(&img).segment().unwrap();
    assert_eq!(layout.rack_cols.len(), 7);
    let res = board().recognize_screenshot(&img).unwrap();
    assert_eq!(res.rack_ocr.0, vec![vec!["b", "*", "A", "a", "a", "a", "a"]]);
    assert_eq!(res.rack_stats.len(), 7);
}
