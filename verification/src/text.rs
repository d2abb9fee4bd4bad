//! Grids as text, and the names under which templates are kept.

use vstd::prelude::*;
use vstd::string::StringExecFns;
use crate::recognizer::Ocr;

verus! {

/// The characters of each of the strings.
pub open spec fn chars_of(items: Seq<String>) -> Seq<Seq<char>> {
    Seq::new(items.len(), |i: int| items[i]@)
}

/// The first `n` items, with `sep` between each two.
pub open spec fn joined(items: Seq<Seq<char>>, sep: Seq<char>, n: int) -> Seq<char>
    decreases n,
{
    if n <= 0 {
        Seq::empty()
    } else if n == 1 {
        items[0]
    } else {
        joined(items, sep, n - 1) + sep + items[n - 1]
    }
}

/// All items, with `sep` between each two.
pub open spec fn joined_all(items: Seq<Seq<char>>, sep: Seq<char>) -> Seq<char> {
    joined(items, sep, items.len() as int)
}

/// Joins the items, with `sep` between each two.
pub fn join(items: &Vec<String>, sep: &str) -> (text: String)
    ensures
        text@ == joined_all(chars_of(items@), sep@),
{
    let mut text = String::new();
    let mut i: usize = 0;
    while i < items.len()
        invariant
            i <= items@.len(),
            text@ == joined(chars_of(items@), sep@, i as int),
        decreases items@.len() - i,
    {
        if i > 0 {
            text.append(sep);
        }
        text.append(items[i].as_str());
        proof {
            assert(chars_of(items@)[i as int] == items@[i as int]@);
            if i == 0 {
                assert(Seq::<char>::empty() + items@[0]@ =~= items@[0]@);
            }
        }
        i += 1;
    }
    text
}

/// The name under which the template with the given label is kept.
pub fn template(label: &str) -> (path: String)
    ensures
        path@ == "templates/"@ + label@ + ".png"@,
{
    let mut path = String::from_str("templates/");
    path.append(label);
    path.append(".png");
    path
}

/// The number of bonus markings that the board knows.
pub fn four() -> (n: i32)
    ensures
        n == 4,
{
    1 + 3
}

impl Ocr {
    /// Each row of the grid as one sequence of characters, with `sep`
    /// between each two symbols.
    pub open spec fn row_texts(&self, sep: Seq<char>) -> Seq<Seq<char>> {
        Seq::new(self.0@.len(), |r: int| joined_all(chars_of(self.0@[r]@), sep))
    }

    /// Each row of the grid as one string, with `sep` between each two
    /// symbols.
    pub fn lines(&self, sep: &str) -> (rows: Vec<String>)
        ensures
            chars_of(rows@) == self.row_texts(sep@),
    {
        let mut rows: Vec<String> = Vec::new();
        let mut r: usize = 0;
        while r < self.0.len()
            invariant
                r <= self.0@.len(),
                rows@.len() == r,
                forall|k: int|
                    0 <= k < r ==> (#[trigger] rows@[k])@ == joined_all(chars_of(self.0@[k]@), sep@),
            decreases self.0@.len() - r,
        {
            rows.push(join(&self.0[r], sep));
            r += 1;
        }
        assert(chars_of(rows@) =~= self.row_texts(sep@));
        rows
    }

    /// The grid as text: the symbols of each row without anything between
    /// them, and a line feed between each two rows.
    pub fn to_text(&self) -> (text: String)
        ensures
            text@ == joined_all(self.row_texts(""@), "\n"@),
    {
        let rows = self.lines("");
        join(&rows, "\n")
    }
}

} // verus!
