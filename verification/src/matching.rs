//! Template matching: the score of a template at every place of a region,
//! the best place of each template, and the best template.
//!
//! Scores are kept as the bit patterns of the non-negative single-precision
//! numbers that the matcher computes.  Among such numbers the order of the
//! bit patterns, read as unsigned integers, is the order of the numbers.

use vstd::prelude::*;
use crate::gray::{GrayImage, Raster, size_supported};

verus! {

/// The scores that the matcher gives a template at every place of an image,
/// row by row: at each place the sum of the squared differences between
/// image and template, divided by the square root of the product of the sums
/// of squares of both where that is positive.
pub uninterp spec fn sse_normalized(
    image: Seq<u8>,
    image_width: int,
    image_height: int,
    template: Seq<u8>,
    template_width: int,
    template_height: int,
) -> Seq<u32>;

/// The samples of a raster resampled to another size with a Lanczos filter
/// of window three.
pub uninterp spec fn lanczos3(data: Seq<u8>, width: int, height: int, nwidth: int, nheight: int) -> Seq<u8>;

/// The lowercase form of a string.
pub uninterp spec fn lowercase(s: Seq<char>) -> Seq<char>;

/// Calls `imageproc::template_matching::match_template` with the method
/// `SumOfSquaredErrorsNormalized` and hands out the bit pattern of each
/// score.
///
/// Trusted: that the result has one score for each place at which the
/// template lies inside the image, and that it depends on the samples and
/// sizes of image and template alone.
#[verifier::external_body]
pub(crate) fn match_scores(image: &GrayImage, template: &GrayImage) -> (scores: Vec<u32>)
    requires
        image.wf(),
        template.wf(),
        0 < template.width <= image.width,
        0 < template.height <= image.height,
    ensures
        scores@ == sse_normalized(
            image.data@,
            image.width as int,
            image.height as int,
            template.data@,
            template.width as int,
            template.height as int,
        ),
        scores@.len() == (image.width - template.width + 1) * (image.height - template.height
            + 1),
{
    let img = image::GrayImage::from_raw(image.width, image.height, image.data.clone()).unwrap();
    let tpl = image::GrayImage::from_raw(template.width, template.height, template.data.clone())
        .unwrap();
    let method = imageproc::template_matching::MatchTemplateMethod::SumOfSquaredErrorsNormalized;
    let result = imageproc::template_matching::match_template(&img, &tpl, method);
    result.into_raw().iter().map(|v| v.to_bits()).collect()
}

/// Calls `image::imageops::resize` with the filter `Lanczos3`.
///
/// Trusted: that the result has the size asked for, and that it depends on
/// the samples and sizes alone.
#[verifier::external_body]
pub(crate) fn resize_lanczos3(img: &GrayImage, nwidth: u32, nheight: u32) -> (r: GrayImage)
    requires
        img.wf(),
        img.width > 0,
        img.height > 0,
        nwidth > 0,
        nheight > 0,
        size_supported(nwidth as int, nheight as int),
    ensures
        r.width == nwidth,
        r.height == nheight,
        r.data@.len() == nwidth * nheight,
        r.data@ == lanczos3(
            img.data@,
            img.width as int,
            img.height as int,
            nwidth as int,
            nheight as int,
        ),
{
    let src = image::GrayImage::from_raw(img.width, img.height, img.data.clone()).unwrap();
    let filter = image::imageops::FilterType::Lanczos3;
    let out = image::imageops::resize(&src, nwidth, nheight, filter);
    GrayImage { width: nwidth, height: nheight, data: out.into_raw() }
}

/// Calls `str::to_lowercase`.
///
/// Trusted: that the result depends on the characters of the string alone.
#[verifier::external_body]
pub(crate) fn to_lowercase(s: &String) -> (r: String)
    ensures
        r@ == lowercase(s@),
{
    s.to_lowercase()
}

/// Index of the first smallest among the first `n` values.
pub open spec fn first_min(values: Seq<u32>, n: int) -> int
    decreases n,
{
    if n <= 1 {
        0
    } else {
        let p = first_min(values, n - 1);
        if values[n - 1] < values[p] {
            n - 1
        } else {
            p
        }
    }
}

/// The first smallest value is in range, no value is smaller, and every
/// earlier value is greater.
pub proof fn lemma_first_min(values: Seq<u32>, n: int)
    requires
        1 <= n <= values.len(),
    ensures
        0 <= first_min(values, n) < n,
        forall|j: int| 0 <= j < n ==> values[first_min(values, n)] <= #[trigger] values[j],
        forall|j: int|
            0 <= j < first_min(values, n) ==> values[first_min(values, n)] < #[trigger] values[j],
    decreases n,
{
    if n > 1 {
        lemma_first_min(values, n - 1);
    }
}

/// Finds the first smallest value.
pub fn first_minimum(values: &Vec<u32>) -> (k: usize)
    requires
        values@.len() > 0,
    ensures
        k == first_min(values@, values@.len() as int),
        k < values@.len(),
        forall|j: int| 0 <= j < values@.len() ==> values@[k as int] <= #[trigger] values@[j],
        forall|j: int| 0 <= j < k ==> values@[k as int] < #[trigger] values@[j],
{
    let mut k: usize = 0;
    let mut i: usize = 1;
    while i < values.len()
        invariant
            1 <= i <= values@.len(),
            k == first_min(values@, i as int),
            k < i,
        decreases values@.len() - i,
    {
        if values[i] < values[k] {
            k = i;
        }
        i += 1;
    }
    proof {
        lemma_first_min(values@, values@.len() as int);
    }
    k
}

/// The best of the first `count` places of a template in an image: the
/// smallest score and the first place, row by row, that has it.
pub open spec fn best_place(scores: Seq<u32>, count: int, places_per_row: int) -> (u32, (u32, u32)) {
    let k = first_min(scores, count);
    (scores[k], ((k % places_per_row) as u32, (k / places_per_row) as u32))
}

/// Finds the smallest of the scores and the column and row of the first
/// place that has it, in scores laid out row by row with `places_per_row`
/// places in each row.
pub fn find_best_place(scores: &Vec<u32>, places_per_row: u32) -> (r: (u32, (u32, u32)))
    requires
        scores@.len() > 0,
        places_per_row > 0,
        scores@.len() <= u32::MAX,
    ensures
        r == best_place(scores@, scores@.len() as int, places_per_row as int),
{
    let k: usize = first_minimum(scores);
    let x: usize = k % (places_per_row as usize);
    let y: usize = k / (places_per_row as usize);
    proof {
        assert(k as int / (places_per_row as int) <= k) by (nonlinear_arith)
            requires
                0 <= k,
                0 < places_per_row,
        ;
    }
    (scores[k], (x as u32, y as u32))
}

/// The best place of `template` in `area`.
pub open spec fn candidate(area: Raster, template: Raster) -> (u32, (u32, u32)) {
    best_place(
        sse_normalized(
            area.data,
            area.width as int,
            area.height as int,
            template.data,
            template.width as int,
            template.height as int,
        ),
        (area.width - template.width + 1) * (area.height - template.height + 1),
        area.width - template.width + 1,
    )
}

/// Scores a template at every place of an area and finds its best place.
pub fn best_candidate(area: &GrayImage, template: &GrayImage) -> (r: (u32, (u32, u32)))
    requires
        area.wf(),
        template.wf(),
        0 < template.width <= area.width,
        0 < template.height <= area.height,
    ensures
        r == candidate(area@, template@),
{
    let scores = match_scores(area, template);
    proof {
        let a = area.width - template.width + 1;
        let b = area.height - template.height + 1;
        crate::gray::lemma_size_supported(area.width as int, area.height as int);
        assert(0 < a * b <= (area.width + 1) * (area.height + 1)) by (nonlinear_arith)
            requires
                0 < a <= area.width + 1,
                0 < b <= area.height + 1,
        ;
    }
    find_best_place(&scores, area.width - template.width + 1)
}

/// Every template is a well-formed raster that is not empty, and all have
/// the same size.
pub open spec fn templates_usable(templates: Seq<(String, GrayImage)>) -> bool {
    forall|i: int|
        0 <= i < templates.len() ==> {
            &&& (#[trigger] templates[i]).1.wf()
            &&& templates[i].1.width > 0
            &&& templates[i].1.height > 0
            &&& templates[i].1.width == templates[0].1.width
            &&& templates[i].1.height == templates[0].1.height
        }
}

/// Tells whether the templates can be matched inside an area of the given
/// size: there is one, and it is no larger than the area.
pub open spec fn templates_fit(templates: Seq<(String, GrayImage)>, width: u32, height: u32) -> bool {
    templates.len() > 0 && templates[0].1.width <= width && templates[0].1.height <= height
}

/// The best score of each of the first `n` templates in `area`.
pub open spec fn candidate_scores(area: Raster, templates: Seq<(String, GrayImage)>, n: int) -> Seq<u32> {
    Seq::new(n as nat, |i: int| candidate(area, templates[i].1@).0)
}

/// The outcome of a match, as a mathematical value.
pub struct MatchModel {
    /// Label of the template that matches best.
    pub label: Seq<char>,
    /// Its score.
    pub score: u32,
    /// Column and row of its best place.
    pub location: (u32, u32),
}

/// The template that matches `area` best: the one with the lowest best
/// score, and of several with that score the first in the list.
pub open spec fn match_of(area: Raster, templates: Seq<(String, GrayImage)>) -> Option<MatchModel> {
    if templates_fit(templates, area.width, area.height) {
        let n = templates.len() as int;
        let t = first_min(candidate_scores(area, templates, n), n);
        let c = candidate(area, templates[t].1@);
        Some(MatchModel { label: templates[t].0@, score: c.0, location: c.1 })
    } else {
        None
    }
}

/// The label, the score and the place of a match.
pub open spec fn match_model(m: (String, u32, (u32, u32))) -> MatchModel {
    MatchModel { label: m.0@, score: m.1, location: m.2 }
}

/// Matches every template against `area` and picks the best: the lowest
/// score wins, and of several templates with that score the first.  Gives
/// the label of that template, its score and its place, or `None` when
/// there is no template or the templates are larger than the area.
pub fn match_template(area: &GrayImage, templates: &Vec<(String, GrayImage)>) -> (r: Option<
    (String, u32, (u32, u32)),
>)
    requires
        area.wf(),
        templates_usable(templates@),
    ensures
        r is Some <==> templates_fit(templates@, area.width, area.height),
        match r {
            Some(m) => match_of(area@, templates@) == Some(match_model(m)),
            None => match_of(area@, templates@) is None,
        },
{
    if templates.len() == 0 {
        return None;
    }
    assert(templates@[0].1.wf());
    if templates[0].1.width > area.width || templates[0].1.height > area.height {
        return None;
    }
    let mut scores: Vec<u32> = Vec::new();
    let mut places: Vec<(u32, u32)> = Vec::new();
    let mut i: usize = 0;
    while i < templates.len()
        invariant
            area.wf(),
            templates_usable(templates@),
            templates_fit(templates@, area.width, area.height),
            i <= templates@.len(),
            scores@.len() == i,
            places@.len() == i,
            forall|k: int|
                0 <= k < i ==> scores@[k] == candidate(area@, templates@[k].1@).0 && places@[k]
                    == candidate(area@, templates@[k].1@).1,
        decreases templates@.len() - i,
    {
        assert(templates@[i as int].1.wf());
        let c = best_candidate(area, &templates[i].1);
        scores.push(c.0);
        places.push(c.1);
        i += 1;
    }
    assert(scores@ =~= candidate_scores(area@, templates@, templates@.len() as int));
    let t: usize = first_minimum(&scores);
    let label: String = templates[t].0.clone();
    Some((label, scores[t], places[t]))
}

} // verus!
