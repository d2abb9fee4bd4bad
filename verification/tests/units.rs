use wordfeud_ocr::gray::GrayImage;
use wordfeud_ocr::integral::IntegralTable;
use wordfeud_ocr::layout::{is_near_square, variance, Layout};
use wordfeud_ocr::matching::{find_best_place, first_minimum, match_template};
use wordfeud_ocr::recognizer::{
    bonus_interior, cells_inside, read_bonus, read_tile, templates_are_usable, tile_interior,
    topright, Ocr,
};
use wordfeud_ocr::rect::Rect;
use wordfeud_ocr::segment::{close, scan_columns, scan_rows, Segment};
use wordfeud_ocr::select::index_range;
use wordfeud_ocr::stats::{AreaStats, Ratio};
use wordfeud_ocr::text::join;

fn image(width: u32, height: u32, data: Vec<u8>) -> GrayImage {
    GrayImage::from_raw(width, height, data).unwrap()
}

fn rect(x: u32, y: u32, width: u32, height: u32) -> Rect {
    Rect { x, y, width, height }
}

#[test]
fn close_is_inclusive_on_both_sides() {
    assert!(close(51, 51, 2));
    assert!(close(53, 51, 2));
    assert!(close(49, 51, 2));
    assert!(!close(54, 51, 2));
    assert!(!close(48, 51, 2));
    assert!(close(0, 0, 0));
    assert!(!close(u32::MAX, 0, 5));
    assert!(close(u32::MAX, 0, u32::MAX));
}

#[test]
fn from_raw_wants_the_right_number_of_samples() {
    assert!(GrayImage::from_raw(2, 3, vec![0; 6]).is_some());
    assert!(GrayImage::from_raw(2, 3, vec![0; 5]).is_none());
    assert!(GrayImage::from_raw(2, 3, vec![0; 7]).is_none());
    assert!(GrayImage::from_raw(0, 7, Vec::new()).is_some());
    assert!(GrayImage::from_raw(u32::MAX, 0, Vec::new()).is_none());
    assert!(GrayImage::from_raw(65535, 65535, Vec::new()).is_none());
    assert!(GrayImage::filled(u32::MAX, u32::MAX, 0).is_none());
    let img = GrayImage::filled(3, 2, 9).unwrap();
    assert_eq!(img.data, vec![9; 6]);
    assert!(img.is_valid());
    assert!(!GrayImage { width: 2, height: 2, data: vec![1, 2, 3] }.is_valid());
}

#[test]
fn crop_copies_the_rectangle() {
    let img = image(4, 3, (0..12).collect());
    assert_eq!(img.get_pixel(2, 1), 6);
    let part = img.crop(rect(1, 1, 2, 2));
    assert_eq!(part.dimensions(), (2, 2));
    assert_eq!(part.data, vec![5, 6, 9, 10]);
    let none = img.crop(rect(4, 3, 0, 0));
    assert_eq!(none.dimensions(), (0, 0));
    assert!(none.data.is_empty());
    assert_eq!(img.crop(rect(0, 0, 4, 3)).data, img.data);
}

#[test]
fn binarize_cuts_at_sixty_five_percent() {
    let img = image(5, 1, vec![0, 165, 166, 167, 255]);
    let bw = img.binarize(65);
    assert_eq!(bw.dimensions(), (5, 1));
    assert_eq!(bw.data, vec![0, 0, 255, 255, 255]);
    assert_eq!(img.binarize(100).data, vec![0, 0, 0, 0, 0]);
    assert_eq!(img.binarize(0).data, vec![0, 255, 255, 255, 255]);
}

#[test]
fn rect_fits_in_checks_both_sides() {
    assert!(rect(0, 0, 4, 3).fits_in(4, 3));
    assert!(!rect(1, 0, 4, 3).fits_in(4, 3));
    assert!(!rect(0, 1, 4, 3).fits_in(4, 3));
    assert!(rect(4, 3, 0, 0).fits_in(4, 3));
    assert!(!rect(u32::MAX, 0, 1, 1).fits_in(u32::MAX, 5));
}

#[test]
fn integral_table_sums_rectangles() {
    let img = image(3, 3, vec![1, 2, 3, 4, 5, 6, 7, 8, 9]);
    let sums = IntegralTable::new(&img, false);
    let squares = IntegralTable::new(&img, true);
    assert_eq!(sums.sums.len(), 16);
    assert_eq!(sums.sums, vec![0, 0, 0, 0, 0, 1, 3, 6, 0, 5, 12, 21, 0, 12, 27, 45]);
    assert_eq!(sums.rect_sum(&rect(0, 0, 3, 3)), 45);
    assert_eq!(squares.rect_sum(&rect(0, 0, 3, 3)), 285);
    assert_eq!(sums.rect_sum(&rect(1, 1, 2, 2)), 28);
    assert_eq!(squares.rect_sum(&rect(1, 1, 2, 2)), 25 + 36 + 64 + 81);
    assert_eq!(sums.rect_sum(&rect(2, 0, 1, 3)), 18);
    assert_eq!(sums.rect_sum(&rect(0, 1, 3, 1)), 15);
    assert_eq!(sums.rect_sum(&rect(1, 2, 0, 1)), 0);
    assert_eq!(sums.rect_sum(&rect(3, 3, 0, 0)), 0);
}

#[test]
fn integral_table_of_white_raster_reaches_the_bounds() {
    let img = GrayImage::filled(20, 10, 255).unwrap();
    let sums = IntegralTable::new(&img, false);
    let squares = IntegralTable::new(&img, true);
    assert_eq!(sums.rect_sum(&rect(0, 0, 20, 10)), 255 * 200);
    assert_eq!(squares.rect_sum(&rect(0, 0, 20, 10)), 65025 * 200);
}

#[test]
fn ratio_compares_by_cross_multiplication() {
    let r = Ratio { num: 13, den: 20 };
    assert!(!r.exceeds(65, 100));
    assert!(!r.below(65, 100));
    assert!(r.exceeds(64, 100));
    assert!(r.below(66, 100));
    assert_eq!(r.floor(), 0);
    assert_eq!(Ratio { num: 41, den: 20 }.floor(), 2);
    let empty = Ratio { num: 0, den: 0 };
    assert!(!empty.exceeds(0, 1));
    assert!(!empty.below(1, 1));
    assert_eq!(empty.floor(), 0);
}

#[test]
fn area_stats_give_mean_and_variance() {
    let st = AreaStats { count: 4, sum: 10 + 20 + 30 + 40, sum_sq: 100 + 400 + 900 + 1600 };
    assert_eq!(st.mean(), Ratio { num: 100, den: 1020 });
    assert_eq!(st.level(), Ratio { num: 100, den: 4 });
    assert_eq!(st.variance(), Ratio { num: 4 * 3000 - 10000, den: 16 });
    assert_eq!(st.levels(), (25, 125));
    let st = AreaStats { count: 3, sum: 1 + 2 + 4, sum_sq: 1 + 4 + 16 };
    assert_eq!(st.levels(), (2, 1));
    assert_eq!(st.variance(), Ratio { num: 14, den: 9 });
    let empty = AreaStats { count: 0, sum: 0, sum_sq: 0 };
    assert_eq!(empty.levels(), (0, 0));
    assert!(!empty.mean_exceeds(0));
    assert!(!empty.mean_below(100));
    assert!(!empty.deviation_below(10));
    let uniform = AreaStats { count: 5, sum: 5 * 24, sum_sq: 5 * 576 };
    assert_eq!(uniform.levels(), (24, 0));
}

#[test]
fn variance_never_goes_below_zero() {
    let odd = AreaStats { count: 2, sum: 10, sum_sq: 1 };
    assert_eq!(odd.variance(), Ratio { num: 0, den: 4 });
    assert_eq!(odd.levels(), (5, 0));
}

#[test]
fn deviation_threshold_is_a_fifth_of_full_scale() {
    // two samples a and b: the variance is ((a - b) / 2)^2
    let at = |a: u64, b: u64| AreaStats { count: 2, sum: a + b, sum_sq: a * a + b * b };
    assert!(at(100, 200).deviation_below(2));
    assert!(at(100, 201).deviation_below(2));
    assert!(!at(100, 202).deviation_below(2));
    assert!(at(100, 150).deviation_below(1));
    assert!(!at(100, 151).deviation_below(1));
    assert!(!at(100, 100).deviation_below(0));
}

#[test]
fn occupancy_boundary_is_strict() {
    // mean 0.65 exactly: 663 / (4 * 255)
    let exact = AreaStats { count: 4, sum: 663, sum_sq: 0 };
    assert!(!exact.mean_exceeds(65));
    assert!(!exact.mean_below(65));
    let above = AreaStats { count: 4, sum: 664, sum_sq: 0 };
    assert!(above.mean_exceeds(65));
    // mean 0.6501: 1657755 / (10000 * 255)
    let st = AreaStats { count: 10000, sum: 1657755, sum_sq: 0 };
    assert!(st.mean_exceeds(65));
    let st = AreaStats { count: 10000, sum: 1657500, sum_sq: 0 };
    assert!(!st.mean_exceeds(65));
}

#[test]
fn tile_index_lists_cells_above_the_threshold() {
    let mut data = vec![166u8, 166, 166, 165];
    data.extend_from_slice(&[166, 166, 166, 166]);
    data.extend_from_slice(&[0, 0, 0, 0]);
    data.extend_from_slice(&[255, 255, 255, 255]);
    let img = image(4, 4, data);
    let layout = Layout::new(&img);
    let cells = vec![rect(0, 0, 4, 1), rect(0, 1, 4, 1), rect(0, 2, 4, 1), rect(0, 3, 4, 1)];
    assert_eq!(layout.get_tile_index(&cells), vec![1, 3]);
    assert_eq!(layout.get_tile_index(&Vec::new()), Vec::<usize>::new());
    assert_eq!(layout.get_tile_index(&vec![rect(1, 1, 0, 0)]), Vec::<usize>::new());
    assert_eq!(layout.mean(&rect(0, 0, 4, 1)), Ratio { num: 663, den: 1020 });
    let st = layout.area_stats(&rect(0, 0, 2, 4));
    assert_eq!(st, AreaStats { count: 8, sum: 4 * 166 + 2 * 255, sum_sq: 4 * 27556 + 2 * 65025 });
}

#[test]
fn mean_of_ten_thousand_samples_at_the_boundary() {
    let mut data = vec![165u8; 10000];
    for p in data.iter_mut().take(7755) {
        *p = 166;
    }
    let img = image(100, 100, data.clone());
    let layout = Layout::new(&img);
    let cell = rect(0, 0, 100, 100);
    assert_eq!(layout.mean(&cell), Ratio { num: 1657755, den: 2550000 });
    assert_eq!(layout.get_tile_index(&vec![cell]), vec![0]);
    for p in data.iter_mut().take(255) {
        *p = 165;
    }
    let img = image(100, 100, data);
    let layout = Layout::new(&img);
    assert_eq!(layout.mean(&cell), Ratio { num: 1657500, den: 2550000 });
    assert_eq!(layout.get_tile_index(&vec![cell]), Vec::<usize>::new());
}

#[test]
fn variance_of_a_rectangle_by_its_corners() {
    let img = image(3, 2, vec![10, 20, 0, 30, 40, 0]);
    let sums = IntegralTable::new(&img, false);
    let squares = IntegralTable::new(&img, true);
    let v = variance(&sums, &squares, 0, 0, 1, 1);
    assert_eq!(v, Ratio { num: 2000, den: 16 });
    assert_eq!(v.floor(), 125);
    let v = variance(&sums, &squares, 2, 0, 2, 1);
    assert_eq!(v, Ratio { num: 0, den: 4 });
}

#[test]
fn profile_has_one_entry_per_line() {
    let img = image(3, 2, vec![10, 20, 30, 40, 40, 40]);
    let layout = Layout::new(&img);
    let rows = layout.stats(rect(0, 0, 3, 2), true);
    assert_eq!(rows, vec![(20, 66), (40, 0)]);
    let cols = layout.stats(rect(0, 0, 3, 2), false);
    assert_eq!(cols, vec![(25, 225), (30, 100), (35, 25)]);
    let band = layout.stats(rect(0, 1, 3, 1), false);
    assert_eq!(band, vec![(40, 0), (40, 0), (40, 0)]);
    assert_eq!(layout.stats(rect(0, 0, 0, 0), true), Vec::new());
}

#[test]
fn aspect_gate() {
    assert!(!is_near_square(100, 103));
    assert!(is_near_square(100, 101));
    assert!(is_near_square(100, 102));
    assert!(is_near_square(100, 98));
    assert!(!is_near_square(100, 97));
    assert!(!is_near_square(1000, 1021));
    assert!(is_near_square(1000, 1020));
    assert!(is_near_square(0, 0));
    assert!(!is_near_square(0, 1));
    assert!(!is_near_square(u32::MAX, 0));
}

#[test]
fn cells_have_the_mean_size() {
    let rows = vec![(10usize, 20usize), (30, 41)];
    let cols = vec![(1usize, 5usize), (7, 12), (20, 26)];
    let cells = Layout::get_cells(&rows, &cols);
    assert_eq!(
        cells,
        vec![
            rect(1, 10, 5, 10),
            rect(7, 10, 5, 10),
            rect(20, 10, 5, 10),
            rect(1, 30, 5, 10),
            rect(7, 30, 5, 10),
            rect(20, 30, 5, 10),
        ]
    );
    assert!(Layout::get_cells(&rows, &Vec::new()).is_empty());
    assert!(Layout::get_cells(&Vec::new(), &cols).is_empty());
    assert_eq!(Layout::get_cells(&vec![(3, 3)], &vec![(4, 4)]), vec![rect(4, 3, 0, 0)]);
}

#[test]
fn cells_inside_checks_every_cell() {
    let img = GrayImage::filled(10, 10, 0).unwrap();
    assert!(cells_inside(&img, &vec![rect(0, 0, 10, 10), rect(9, 9, 1, 1)]));
    assert!(!cells_inside(&img, &vec![rect(0, 0, 10, 10), rect(9, 9, 2, 1)]));
    assert!(cells_inside(&img, &Vec::new()));
}

fn rows_until_rack() -> Vec<(u32, u32)> {
    let mut profile = vec![(51, 0); 6];
    profile.push((24, 0));
    for _ in 0..15 {
        profile.push((40, 3));
        profile.push((40, 3));
        profile.push((24, 0));
    }
    profile.extend(vec![(51, 0); 8]);
    profile.push((24, 0));
    profile
}

#[test]
fn row_pass_finds_board_and_rack() {
    let mut profile = rows_until_rack();
    let rack_y = profile.len() + 2;
    profile.extend(vec![(24, 0), (24, 100), (90, 101), (90, 500), (24, 1), (24, 0), (24, 0)]);
    let scan = scan_rows(&profile);
    assert_eq!(scan.state, Segment::Done);
    assert_eq!(scan.spans.len(), 15);
    assert_eq!(scan.spans[0], (7, 8));
    assert_eq!(scan.spans[1], (10, 11));
    assert_eq!(scan.spans[14], (49, 50));
    assert_eq!(scan.rack_y, rack_y);
    assert_eq!(scan.rack_height, 3);
}

#[test]
fn row_pass_without_variance_rise_stops_looking_for_rack() {
    let mut profile = rows_until_rack();
    profile.extend(vec![(24, 0); 40]);
    profile.extend(vec![(90, 100); 3]);
    let scan = scan_rows(&profile);
    assert_eq!(scan.state, Segment::LookForRack);
    assert_eq!(scan.spans.len(), 15);
}

#[test]
fn row_pass_reports_where_it_stopped() {
    assert_eq!(scan_rows(&Vec::new()).state, Segment::LookForTopBorder(0));
    assert_eq!(scan_rows(&vec![(51, 0); 3]).state, Segment::LookForTopBorder(3));
    assert_eq!(scan_rows(&vec![(51, 25); 9]).state, Segment::LookForTopBorder(0));
    assert_eq!(scan_rows(&vec![(51, 0); 4]).state, Segment::LookForTopBorder(4));
    assert_eq!(scan_rows(&vec![(51, 0); 5]).state, Segment::InTopBorder);
    let mut profile = vec![(51, 0); 5];
    profile.push((26, 0));
    assert_eq!(scan_rows(&profile).state, Segment::LookForRisingEdge(0));
    profile.push((26, 0));
    assert_eq!(scan_rows(&profile).state, Segment::LookForRisingEdge(0));
    profile.push((27, 0));
    let scan = scan_rows(&profile);
    assert_eq!(scan.state, Segment::InTile(0));
    assert_eq!(scan.spans, vec![(7, 0)]);
    profile.push((22, 9));
    let scan = scan_rows(&profile);
    assert_eq!(scan.state, Segment::LookForRisingEdge(1));
    assert_eq!(scan.spans, vec![(7, 7)]);
    let full = rows_until_rack();
    assert_eq!(scan_rows(&full[..full.len() - 1].to_vec()).state, Segment::InBottomBorder);
    assert_eq!(scan_rows(&full[..full.len() - 9].to_vec()).state, Segment::LookForBottomBorder(0));
    assert_eq!(scan_rows(&full[..full.len() - 3].to_vec()).state, Segment::LookForBottomBorder(6));
}

#[test]
fn column_pass_finds_up_to_the_limit() {
    let profile = vec![(24, 0), (30, 0), (30, 0), (29, 0), (60, 0), (19, 0), (90, 0), (24, 0)];
    let scan = scan_columns(24, 15, &profile);
    assert_eq!(scan.state, Segment::LookForRisingEdge(3));
    assert_eq!(scan.spans, vec![(1, 2), (4, 4), (6, 6)]);
    let scan = scan_columns(24, 2, &profile);
    assert_eq!(scan.state, Segment::Done);
    assert_eq!(scan.spans, vec![(1, 2), (4, 4)]);
    let scan = scan_columns(48, 7, &profile);
    assert_eq!(scan.state, Segment::LookForRisingEdge(2));
    assert_eq!(scan.spans, vec![(4, 4), (6, 6)]);
    let scan = scan_columns(48, 7, &vec![(24, 0), (54, 0), (54, 0)]);
    assert_eq!(scan.state, Segment::InTile(0));
    assert_eq!(scan.spans, vec![(1, 0)]);
    let scan = scan_columns(u32::MAX, 7, &vec![(u32::MAX, 0)]);
    assert_eq!(scan.state, Segment::LookForRisingEdge(0));
}

#[test]
fn first_minimum_takes_the_first_of_equals() {
    assert_eq!(first_minimum(&vec![5]), 0);
    assert_eq!(first_minimum(&vec![5, 3, 4, 3]), 1);
    assert_eq!(first_minimum(&vec![2, 2, 2]), 0);
    assert_eq!(first_minimum(&vec![9, 8, 7]), 2);
    assert_eq!(find_best_place(&vec![9, 8, 7, 7, 8, 9], 3), (7, (2, 0)));
    assert_eq!(find_best_place(&vec![9, 8, 7, 6, 8, 9], 3), (6, (0, 1)));
    assert_eq!(find_best_place(&vec![9, 8, 7, 6, 8, 9], 1), (6, (0, 3)));
}

fn checker(width: u32, height: u32, step: u32) -> GrayImage {
    let mut data = Vec::new();
    for y in 0..height {
        for x in 0..width {
            data.push(if (x / step + 2 * (y / step)) % 3 == 0 { 0 } else { 255 });
        }
    }
    image(width, height, data)
}

#[test]
fn template_matches_itself_with_score_zero() {
    let t = checker(38, 50, 5);
    let r = match_template(&t, &vec![(String::from("A"), t.clone())]);
    assert_eq!(r, Some((String::from("A"), 0, (0, 0))));
    let black = GrayImage::filled(3, 3, 0).unwrap();
    let r = match_template(&black, &vec![(String::from("B"), black.clone())]);
    assert_eq!(r, Some((String::from("B"), 0, (0, 0))));
}

#[test]
fn match_picks_lowest_score_and_first_of_equals() {
    let a = checker(6, 6, 2);
    let b = GrayImage::filled(6, 6, 255).unwrap();
    let mut canvas = vec![255u8; 10 * 9];
    for y in 0..6 {
        for x in 0..6 {
            canvas[((y + 2) * 10 + x + 3) as usize] = a.get_pixel(x, y);
        }
    }
    let area = image(10, 9, canvas);
    let templates = vec![
        (String::from("B"), b.clone()),
        (String::from("A"), a.clone()),
        (String::from("A again"), a.clone()),
    ];
    assert_eq!(match_template(&area, &templates), Some((String::from("A"), 0, (3, 2))));
    let white = GrayImage::filled(10, 9, 255).unwrap();
    let templates = vec![
        (String::from("A"), a.clone()),
        (String::from("B"), b.clone()),
        (String::from("B again"), b),
    ];
    assert_eq!(match_template(&white, &templates), Some((String::from("B"), 0, (0, 0))));
    let r = match_template(&a, &vec![(String::from("W"), white)]);
    assert_eq!(r, None);
    assert_eq!(match_template(&a, &Vec::new()), None);
}

#[test]
fn match_score_is_the_bit_pattern_of_the_error() {
    // one white sample against one black: error 255^2, nothing to divide by
    let white = GrayImage::filled(1, 1, 255).unwrap();
    let black = GrayImage::filled(1, 1, 0).unwrap();
    let r = match_template(&white, &vec![(String::from("x"), black)]).unwrap();
    assert_eq!(f32::from_bits(r.1), 65025.0);
    // 200 against 100: error 100^2 over sqrt(200^2 * 100^2)
    let a = GrayImage::filled(1, 1, 200).unwrap();
    let b = GrayImage::filled(1, 1, 100).unwrap();
    let r = match_template(&a, &vec![(String::from("x"), b)]).unwrap();
    assert_eq!(f32::from_bits(r.1), 0.5);
    assert_eq!(r.2, (0, 0));
}

#[test]
fn usable_templates_have_one_size() {
    let a = GrayImage::filled(3, 4, 0).unwrap();
    let b = GrayImage::filled(4, 3, 0).unwrap();
    assert!(templates_are_usable(&Vec::new()));
    assert!(templates_are_usable(&vec![(String::from("a"), a.clone())]));
    assert!(templates_are_usable(&vec![(String::from("a"), a.clone()), (String::from("b"), a.clone())]));
    assert!(!templates_are_usable(&vec![(String::from("a"), a), (String::from("b"), b)]));
    assert!(!templates_are_usable(&vec![(String::from("e"), GrayImage::filled(0, 5, 0).unwrap())]));
}

#[test]
fn corner_rectangle_rounds_to_nearest() {
    assert_eq!(topright(rect(10, 20, 100, 50)), rect(83, 23, 18, 14));
    assert_eq!(topright(rect(0, 0, 50, 50)), rect(37, 3, 9, 14));
    assert_eq!(topright(rect(5, 5, 0, 0)), rect(5, 5, 0, 0));
    assert_eq!(topright(rect(0, 0, 1, 1)), rect(1, 0, 0, 0));
    assert_eq!(topright(rect(0, 0, 80, 67)), rect(58, 4, 14, 18));
}

#[test]
fn white_cell_is_a_blank_without_matching() {
    let img = GrayImage::filled(70, 70, 255).unwrap();
    let layout = Layout::new(&img);
    let r = read_tile(&img, &layout, rect(1, 2, 67, 67), &Vec::new()).unwrap();
    assert_eq!(r.symbol, "*");
    assert_eq!(r.tag, "*");
    assert_eq!(r.score, 0);
    assert_eq!(r.location, (0, 0));
    // a tiny white cell is a blank too: its region is never cut
    let r = read_tile(&img, &layout, rect(0, 0, 3, 3), &Vec::new()).unwrap();
    assert_eq!(r.symbol, "*");
}

fn tile_with_letter(corner_mark: bool) -> (GrayImage, GrayImage) {
    let mut template = vec![255u8; 38 * 50];
    for y in 5..25 {
        for x in 5..15 {
            template[y * 38 + x] = 0;
        }
    }
    let mut cell = vec![220u8; 67 * 67];
    for y in 5..25 {
        for x in 5..15 {
            cell[(y + 3 + 4) * 67 + x + 6 + 2] = 0;
        }
    }
    if corner_mark {
        for y in 6..14 {
            for x in 51..56 {
                cell[y * 67 + x] = 0;
            }
        }
    }
    (image(67, 67, cell), image(38, 50, template))
}

#[test]
fn light_corner_keeps_the_label_as_it_stands() {
    let (img, template) = tile_with_letter(false);
    let layout = Layout::new(&img);
    let templates = vec![(String::from("A"), template)];
    let r = read_tile(&img, &layout, rect(0, 0, 67, 67), &templates).unwrap();
    assert_eq!(r.symbol, "A");
    assert_eq!(r.tag, "A");
    assert_eq!(r.score, 0);
    assert_eq!(r.location, (2, 4));
}

#[test]
fn marked_corner_gives_lowercase() {
    let (img, template) = tile_with_letter(true);
    let layout = Layout::new(&img);
    let templates = vec![(String::from("CH"), template)];
    let r = read_tile(&img, &layout, rect(0, 0, 67, 67), &templates).unwrap();
    assert_eq!(r.symbol, "ch");
    assert_eq!(r.tag, "CH");
    assert_eq!(r.location, (2, 4));
}

#[test]
fn small_cells_cannot_be_read() {
    let img = GrayImage::filled(100, 100, 200).unwrap();
    let layout = Layout::new(&img);
    let template = GrayImage::filled(38, 50, 255).unwrap();
    let templates = vec![(String::from("A"), template)];
    assert!(read_tile(&img, &layout, rect(0, 0, 45, 65), &templates).is_none());
    assert!(read_tile(&img, &layout, rect(0, 0, 46, 64), &templates).is_none());
    assert!(read_tile(&img, &layout, rect(0, 0, 46, 65), &templates).is_some());
    assert!(tile_interior(&img, rect(0, 0, 68, 0)).is_none());
    assert!(bonus_interior(&img, rect(0, 0, 55, 49)).is_none());
    assert!(bonus_interior(&img, rect(0, 0, 56, 48)).is_none());
    let bonus = vec![(String::from("2W"), GrayImage::filled(48, 28, 200).unwrap())];
    let r = read_bonus(&img, rect(0, 0, 56, 49), &bonus).unwrap();
    assert_eq!(r.symbol, "2w");
    assert_eq!(r.tag, "2w");
    assert_eq!(r.score, 0);
    assert_eq!(r.location, (0, 0));
    let bonus = vec![(String::from("2W"), GrayImage::filled(49, 28, 200).unwrap())];
    assert!(read_bonus(&img, rect(0, 0, 56, 49), &bonus).is_none());
}

#[test]
fn regions_are_cut_at_fixed_offsets() {
    let mut data = Vec::new();
    for y in 0..67u32 {
        for x in 0..67u32 {
            data.push(((x + y) % 256) as u8);
        }
    }
    let img = image(67, 67, data);
    let area = bonus_interior(&img, rect(0, 0, 67, 67)).unwrap();
    assert_eq!(area.dimensions(), (48, 28));
    assert_eq!(area.get_pixel(0, 0), 29);
    assert_eq!(area.get_pixel(47, 27), 29 + 74);
    let area = tile_interior(&img, rect(0, 0, 67, 67)).unwrap();
    assert_eq!(area.dimensions(), (40, 62));
    assert_eq!(area.get_pixel(0, 0), 0);
    assert_eq!(area.get_pixel(39, 61), 0);
    let light = GrayImage::filled(67, 67, 166).unwrap();
    let area = tile_interior(&light, rect(0, 0, 67, 67)).unwrap();
    assert_eq!(area.data, vec![255u8; 40 * 62]);
}

#[test]
fn wide_cells_are_brought_to_tile_size() {
    let mut data = vec![0u8; 134 * 134];
    for y in 0..134usize {
        for x in 67..134usize {
            data[y * 134 + x] = 255;
        }
    }
    let img = image(134, 134, data);
    let area = tile_interior(&img, rect(0, 0, 134, 134)).unwrap();
    assert_eq!(area.dimensions(), (40, 62));
    assert_eq!(area.data.len(), 40 * 62);
    // the left half of the cell is black, the right half white
    assert!(area.get_pixel(0, 0) < 40);
    assert!(area.get_pixel(10, 30) < 40);
    assert!(area.get_pixel(39, 61) > 215);
    assert!(area.get_pixel(35, 5) > 215);
}

#[test]
fn grid_as_text() {
    let ocr = Ocr(vec![
        vec![String::from("a"), String::from("."), String::from("CH")],
        vec![String::from("."), String::from("*"), String::from(".")],
    ]);
    assert_eq!(ocr.to_text(), "a.CH\n.*.");
    assert_eq!(ocr.lines(" "), vec!["a . CH", ". * ."]);
    assert_eq!(ocr.lines(""), vec!["a.CH", ".*."]);
    assert_eq!(Ocr(Vec::new()).to_text(), "");
    assert_eq!(Ocr(vec![Vec::new(), Vec::new()]).to_text(), "\n");
    assert_eq!(join(&vec![String::from("x")], ", "), "x");
    assert_eq!(join(&Vec::new(), ", "), "");
    assert_eq!(join(&vec![String::from("x"), String::from("y")], ", "), "x, y");
}

#[test]
fn index_range_lists_all_indices() {
    assert_eq!(index_range(0), Vec::<usize>::new());
    assert_eq!(index_range(4), vec![0, 1, 2, 3]);
}
