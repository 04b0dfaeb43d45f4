//! The translatable unit and its mathematical model.
//!
//! A `Row` flows through the pipeline unchanged in identity: a pass reads
//! `text`, produces a fresh row with the translation in `text`, the input
//! text preserved in `original`, and whatever annotation the model emitted
//! in `remarks`. Keyed corpora group rows into `LangSet` tracks, one per
//! spreadsheet column, all of equal length.

use vstd::prelude::*;
use crate::text::copy_chars;

verus! {

/// One translatable unit of text.
#[derive(Debug)]
pub struct Row {
    /// Stable identifier: datablock name or spreadsheet key.
    pub id: Vec<char>,
    /// Speaker / collection label; empty in keyed mode.
    pub speaker: Vec<char>,
    /// The current text of the row: source text before a pass, the
    /// translation after one.
    pub text: Vec<char>,
    /// The text this row held before the last pass, kept for auditing.
    pub original: Option<Vec<char>>,
    /// Back-translation of `text`, filled by the validation pass.
    pub original_back: Option<Vec<char>>,
    /// Free-form annotation the model emitted for this row.
    pub remarks: Option<Vec<char>>,
}

/// Mathematical model of a `Row`: every field as a character sequence.
pub ghost struct RowModel {
    pub id: Seq<char>,
    pub speaker: Seq<char>,
    pub text: Seq<char>,
    pub original: Option<Seq<char>>,
    pub original_back: Option<Seq<char>>,
    pub remarks: Option<Seq<char>>,
}

pub open spec fn view_opt(o: Option<Vec<char>>) -> Option<Seq<char>> {
    match o {
        Some(v) => Some(v@),
        None => None,
    }
}

impl View for Row {
    type V = RowModel;

    open spec fn view(&self) -> RowModel {
        RowModel {
            id: self.id@,
            speaker: self.speaker@,
            text: self.text@,
            original: view_opt(self.original),
            original_back: view_opt(self.original_back),
            remarks: view_opt(self.remarks),
        }
    }
}

/// The models of a sequence of rows.
pub open spec fn row_views(s: Seq<Row>) -> Seq<RowModel> {
    s.map_values(|r: Row| r@)
}

/// The model of a row with every field empty or absent.
pub open spec fn blank_model() -> RowModel {
    RowModel {
        id: Seq::<char>::empty(),
        speaker: Seq::<char>::empty(),
        text: Seq::<char>::empty(),
        original: None,
        original_back: None,
        remarks: None,
    }
}

impl Row {
    /// A fresh row with empty text and no annotations, as the corpus
    /// source would create one before any pass.
    pub fn blank() -> (r: Row)
        ensures
            r@ == blank_model(),
    {
        Row {
            id: Vec::new(),
            speaker: Vec::new(),
            text: Vec::new(),
            original: None,
            original_back: None,
            remarks: None,
        }
    }

    /// A field-for-field copy.
    pub fn duplicate(&self) -> (r: Row)
        ensures
            r@ == self@,
    {
        Row {
            id: copy_chars(&self.id),
            speaker: copy_chars(&self.speaker),
            text: copy_chars(&self.text),
            original: copy_opt(&self.original),
            original_back: copy_opt(&self.original_back),
            remarks: copy_opt(&self.remarks),
        }
    }
}

/// Copy of an optional character vector.
pub fn copy_opt(o: &Option<Vec<char>>) -> (r: Option<Vec<char>>)
    ensures
        view_opt(r) == view_opt(*o),
{
    match o {
        Some(v) => Some(copy_chars(v)),
        None => None,
    }
}

/// One language track of a keyed corpus: a language name and its rows,
/// index-aligned with every other track of the same spreadsheet.
#[derive(Debug)]
pub struct LangSet {
    pub lang: Vec<char>,
    pub entries: Vec<Row>,
}

/// Mathematical model of a language track.
pub ghost struct LangSetModel {
    pub lang: Seq<char>,
    pub entries: Seq<RowModel>,
}

impl View for LangSet {
    type V = LangSetModel;

    open spec fn view(&self) -> LangSetModel {
        LangSetModel { lang: self.lang@, entries: row_views(self.entries@) }
    }
}

/// The models of a sequence of language tracks.
pub open spec fn lang_set_views(s: Seq<LangSet>) -> Seq<LangSetModel> {
    s.map_values(|l: LangSet| l@)
}

/// Whether two character vectors hold the same characters.
pub fn chars_eq(a: &Vec<char>, b: &Vec<char>) -> (r: bool)
    ensures
        r == (a@ == b@),
{
    if a.len() != b.len() {
        return false;
    }
    let mut i: usize = 0;
    while i < a.len()
        invariant
            0 <= i <= a@.len() == b@.len(),
            forall|j: int| 0 <= j < i ==> a@[j] == b@[j],
        decreases a@.len() - i,
    {
        if a[i] != b[i] {
            return false;
        }
        i += 1;
    }
    assert(a@ =~= b@);
    true
}

/// A corpus-source cell as the pipeline sees it: the spreadsheet's
/// missing-value marker counts as empty text.
pub fn normalize_cell(text: Vec<char>) -> (r: Vec<char>)
    ensures
        r@ == (if text@ == "#N/A"@ {
            Seq::<char>::empty()
        } else {
            text@
        }),
{
    let mut marker: Vec<char> = Vec::new();
    crate::text::push_str(&mut marker, "#N/A");
    proof {
        assert(marker@ =~= "#N/A"@);
    }
    if chars_eq(&text, &marker) {
        Vec::new()
    } else {
        text
    }
}

/// `n` fresh blank rows: what a failed, advisory back-translation pass
/// degrades to, so its output still has the corpus's length.
pub fn blank_rows(n: usize) -> (r: Vec<Row>)
    ensures
        r@.len() == n,
        forall|i: int| 0 <= i < n ==> (#[trigger] r@[i])@ == blank_model(),
{
    let mut r: Vec<Row> = Vec::new();
    let mut i: usize = 0;
    while i < n
        invariant
            0 <= i <= n,
            r@.len() == i,
            forall|j: int| 0 <= j < i ==> (#[trigger] r@[j])@ == blank_model(),
        decreases n - i,
    {
        r.push(Row::blank());
        i += 1;
    }
    r
}

/// Joins a translation pass's rows with the back-translation pass's
/// rows: row `i` keeps every field and gains back-translated row `i`'s
/// text as its `original_back`.
pub fn merge_back(entries: &Vec<Row>, back: &Vec<Row>) -> (r: Vec<Row>)
    requires
        entries@.len() == back@.len(),
    ensures
        r@.len() == entries@.len(),
        forall|i: int|
            0 <= i < entries@.len() ==> (#[trigger] r@[i])@ == (RowModel {
                original_back: Some(back@[i]@.text),
                ..entries@[i]@
            }),
{
    let mut r: Vec<Row> = Vec::new();
    let mut i: usize = 0;
    while i < entries.len()
        invariant
            0 <= i <= entries@.len() == back@.len(),
            r@.len() == i,
            forall|j: int|
                0 <= j < i ==> (#[trigger] r@[j])@ == (RowModel {
                    original_back: Some(back@[j]@.text),
                    ..entries@[j]@
                }),
        decreases entries@.len() - i,
    {
        let row = Row {
            id: copy_chars(&entries[i].id),
            speaker: copy_chars(&entries[i].speaker),
            text: copy_chars(&entries[i].text),
            original: copy_opt(&entries[i].original),
            original_back: Some(copy_chars(&back[i].text)),
            remarks: copy_opt(&entries[i].remarks),
        };
        r.push(row);
        i += 1;
    }
    r
}

} // verus!
