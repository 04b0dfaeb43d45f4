//! Response re-segmentation.
//!
//! A reply is scanned left to right with a monotonically advancing
//! cursor. In speaker-tag mode each focus row is located by its literal
//! `{SPK}<speaker>{SPK}` anchor and its segment runs to the next `{SPK}`,
//! else to a markdown fence, else to the end of the text; the segment is
//! split on `{RMK}` into translated text and remarks. In keyed mode the
//! anchor is the header line `# <id>` and the segment must end at the
//! next row's header (strict), except for the last row, which takes the
//! rest of the text.

use vstd::prelude::*;
use crate::errors::ParseError;
use crate::rows::{Row, RowModel, row_views};
use crate::text::{
    spec_find, trim, lemma_find_some, find_sub, subvec, trim_chars, copy_chars, push_str,
    push_chars,
};

verus! {

/// The speaker anchor delimiter.
pub open spec fn spk_mark() -> Seq<char> {
    "{SPK}"@
}

/// The remarks delimiter.
pub open spec fn rmk_mark() -> Seq<char> {
    "{RMK}"@
}

/// The markdown code fence.
pub open spec fn fence_mark() -> Seq<char> {
    "```"@
}

/// The anchor wrapped around a focus row's speaker in speaker-tag mode.
pub open spec fn speaker_pattern(speaker: Seq<char>) -> Seq<char> {
    spk_mark() + speaker + spk_mark()
}

/// The header line that anchors a row in keyed mode.
pub open spec fn keyed_pattern(id: Seq<char>) -> Seq<char> {
    "# "@ + id + "\n"@
}

pub open spec fn min_int(a: int, b: int) -> int {
    if a < b {
        a
    } else {
        b
    }
}

/// A parsed segment split on the first `{RMK}`: the part before is the
/// translated text, the part after the remarks, both trimmed.
pub open spec fn split_remarks(seg: Seq<char>) -> (Seq<char>, Seq<char>) {
    match spec_find(seg, rmk_mark(), 0) {
        Some(p) => (
            trim(seg.subrange(0, p)),
            trim(seg.subrange(p + rmk_mark().len(), seg.len() as int)),
        ),
        None => (trim(seg), Seq::<char>::empty()),
    }
}

/// The output row for focus row `e`: same identity, the extracted text
/// as the new text, the input text kept in `original`.
pub open spec fn parsed_row(e: RowModel, text: Seq<char>, remarks: Seq<char>) -> RowModel {
    RowModel {
        id: e.id,
        speaker: e.speaker,
        text: text,
        original: Some(e.text),
        original_back: None,
        remarks: Some(remarks),
    }
}

/// Where the speaker-mode segment that starts at `start` ends: at the
/// next `{SPK}`, else at a markdown fence, else at the end of the reply.
pub open spec fn speaker_segment_end(resp: Seq<char>, start: int) -> int {
    match spec_find(resp, spk_mark(), start) {
        Some(e) => e,
        None => match spec_find(resp, fence_mark(), start) {
            Some(e) => e,
            None => resp.len() as int,
        },
    }
}

/// Speaker-mode parse of `resp` for the rows `ents[k..]`, the cursor
/// standing at `cursor`.
pub open spec fn spec_parse_speaker_from(
    resp: Seq<char>,
    ents: Seq<RowModel>,
    k: int,
    cursor: int,
) -> Result<Seq<RowModel>, ParseError>
    decreases ents.len() - k when 0 <= k <= ents.len() && 0 <= cursor <= resp.len()
{
    if k >= ents.len() {
        Ok(Seq::<RowModel>::empty())
    } else if cursor >= resp.len() {
        Err(ParseError::Truncated)
    } else {
        let pat = speaker_pattern(ents[k].speaker);
        match spec_find(resp, pat, cursor) {
            None => Err(ParseError::AnchorNotFound(k as usize)),
            Some(p) => {
                let start = min_int(p + pat.len() + 1, resp.len() - 1);
                let end = speaker_segment_end(resp, start);
                let seg = resp.subrange(start, end);
                let tr = split_remarks(seg);
                match spec_parse_speaker_from(resp, ents, k + 1, end) {
                    Ok(rest) => Ok(seq![parsed_row(ents[k], tr.0, tr.1)] + rest),
                    Err(e) => Err(e),
                }
            },
        }
    }
}

/// Speaker-mode parse of a whole reply: an empty reply is rejected
/// outright, anything else is scanned from the beginning.
pub open spec fn spec_parse_speaker(resp: Seq<char>, ents: Seq<RowModel>) -> Result<
    Seq<RowModel>,
    ParseError,
> {
    if resp.len() == 0 {
        Err(ParseError::EmptyResponse)
    } else {
        spec_parse_speaker_from(resp, ents, 0, 0)
    }
}

/// The recursion of `spec_parse_speaker_from` stays within bounds: the
/// next cursor is the segment end, which lies between `start` and the
/// end of the reply.
proof fn lemma_segment_end_bounds(resp: Seq<char>, start: int)
    requires
        0 <= start <= resp.len(),
    ensures
        start <= speaker_segment_end(resp, start) <= resp.len(),
{
    lemma_find_some(resp, spk_mark(), start);
    lemma_find_some(resp, fence_mark(), start);
}

/// Prefixing an already-parsed head onto the outcome of the remaining
/// rows.
pub open spec fn parse_combine(
    head: Seq<RowModel>,
    rest: Result<Seq<RowModel>, ParseError>,
) -> Result<Seq<RowModel>, ParseError> {
    match rest {
        Ok(tail) => Ok(head + tail),
        Err(e) => Err(e),
    }
}

fn spk_vec() -> (v: Vec<char>)
    ensures
        v@ == spk_mark(),
{
    let mut v: Vec<char> = Vec::new();
    push_str(&mut v, "{SPK}");
    assert(v@ =~= spk_mark());
    v
}

fn rmk_vec() -> (v: Vec<char>)
    ensures
        v@ == rmk_mark(),
{
    let mut v: Vec<char> = Vec::new();
    push_str(&mut v, "{RMK}");
    assert(v@ =~= rmk_mark());
    v
}

fn fence_vec() -> (v: Vec<char>)
    ensures
        v@ == fence_mark(),
{
    let mut v: Vec<char> = Vec::new();
    push_str(&mut v, "```");
    assert(v@ =~= fence_mark());
    v
}

fn speaker_pattern_vec(speaker: &Vec<char>) -> (v: Vec<char>)
    ensures
        v@ == speaker_pattern(speaker@),
{
    let mut v: Vec<char> = Vec::new();
    push_str(&mut v, "{SPK}");
    push_chars(&mut v, speaker);
    push_str(&mut v, "{SPK}");
    assert(v@ =~= speaker_pattern(speaker@));
    v
}

fn keyed_pattern_vec(id: &Vec<char>) -> (v: Vec<char>)
    ensures
        v@ == keyed_pattern(id@),
{
    let mut v: Vec<char> = Vec::new();
    push_str(&mut v, "# ");
    push_chars(&mut v, id);
    push_str(&mut v, "\n");
    assert(v@ =~= keyed_pattern(id@));
    v
}

/// Splits one segment on the first `{RMK}` and trims both parts.
fn split_remarks_exec(seg: &Vec<char>) -> (r: (Vec<char>, Vec<char>))
    ensures
        (r.0@, r.1@) == split_remarks(seg@),
{
    let rmk = rmk_vec();
    match find_sub(seg, &rmk, 0) {
        Some(p) => {
            proof {
                lemma_find_some(seg@, rmk_mark(), 0);
            }
            let sl = seg.len();
            let before = subvec(seg, 0, p);
            let after = subvec(seg, p + rmk.len(), sl);
            (trim_chars(&before), trim_chars(&after))
        },
        None => (trim_chars(seg), Vec::new()),
    }
}

/// Re-segments a speaker-mode reply into one output row per focus row,
/// in order.
///
/// The result is exactly what the protocol's parse relation says of this
/// reply and these rows: on success an index-aligned sequence that keeps
/// each row's identity, stores the extracted text and remarks, and moves
/// the input text into `original`; on failure the reason, an empty reply
/// being rejected before anything else.
pub fn process_ai_response(response: &Vec<char>, entries: &Vec<Row>) -> (r: Result<
    Vec<Row>,
    ParseError,
>)
    ensures
        match r {
            Ok(out) => spec_parse_speaker(response@, row_views(entries@)) == Ok::<
                Seq<RowModel>,
                ParseError,
            >(row_views(out@)),
            Err(e) => spec_parse_speaker(response@, row_views(entries@)) == Err::<
                Seq<RowModel>,
                ParseError,
            >(e),
        },
        response@.len() == 0 ==> r == Err::<Vec<Row>, ParseError>(ParseError::EmptyResponse),
        r matches Ok(out) ==> out@.len() == entries@.len() && (forall|i: int|
            0 <= i < entries@.len() ==> (#[trigger] out@[i])@.id == entries@[i]@.id
                && out@[i]@.speaker == entries@[i]@.speaker && out@[i]@.original == Some(
                entries@[i]@.text,
            )),
{
    let ghost ents = row_views(entries@);
    if response.len() == 0 {
        return Err(ParseError::EmptyResponse);
    }
    let spk = spk_vec();
    let fence = fence_vec();
    let rlen = response.len();
    let mut out: Vec<Row> = Vec::new();
    let mut cursor: usize = 0;
    let mut k: usize = 0;
    proof {
        assert(row_views(out@) =~= Seq::<RowModel>::empty());
    }
    while k < entries.len()
        invariant
            0 <= k <= entries@.len(),
            ents == row_views(entries@),
            ents.len() == entries@.len(),
            out@.len() == k,
            0 <= cursor <= response@.len(),
            rlen == response@.len(),
            response@.len() > 0,
            spk@ == spk_mark(),
            fence@ == fence_mark(),
            spec_parse_speaker_from(response@, ents, 0, 0) == parse_combine(
                row_views(out@),
                spec_parse_speaker_from(response@, ents, k as int, cursor as int),
            ),
            forall|i: int|
                0 <= i < k ==> (#[trigger] out@[i])@.id == entries@[i]@.id
                    && out@[i]@.speaker == entries@[i]@.speaker && out@[i]@.original == Some(
                    entries@[i]@.text,
                ),
        decreases entries@.len() - k,
    {
        proof {
            assert(ents[k as int] == entries@[k as int]@);
        }
        if cursor >= rlen {
            return Err(ParseError::Truncated);
        }
        let pat = speaker_pattern_vec(&entries[k].speaker);
        let found = find_sub(response, &pat, cursor);
        match found {
            None => {
                return Err(ParseError::AnchorNotFound(k));
            },
            Some(p) => {
                proof {
                    lemma_find_some(response@, pat@, cursor as int);
                }
                let adv = p + pat.len();
                let start = if adv < rlen - 1 {
                    adv + 1
                } else {
                    rlen - 1
                };
                proof {
                    assert(start as int == min_int(p + pat@.len() + 1, response@.len() - 1));
                }
                let end = match find_sub(response, &spk, start) {
                    Some(e) => e,
                    None => match find_sub(response, &fence, start) {
                        Some(e) => e,
                        None => rlen,
                    },
                };
                proof {
                    lemma_segment_end_bounds(response@, start as int);
                    assert(end as int == speaker_segment_end(response@, start as int));
                }
                let seg = subvec(response, start, end);
                let (text, remarks) = split_remarks_exec(&seg);
                let row = Row {
                    id: copy_chars(&entries[k].id),
                    speaker: copy_chars(&entries[k].speaker),
                    text: text,
                    original: Some(copy_chars(&entries[k].text)),
                    original_back: None,
                    remarks: Some(remarks),
                };
                proof {
                    let tr = split_remarks(seg@);
                    assert(row@ == parsed_row(ents[k as int], tr.0, tr.1));
                }
                let ghost old_out = out@;
                let ghost old_cursor = cursor as int;
                out.push(row);
                cursor = end;
                k = k + 1;
                proof {
                    assert(row_views(out@) =~= row_views(old_out).push(row@));
                    let rest_old = spec_parse_speaker_from(response@, ents, k - 1, old_cursor);
                    let rest_new = spec_parse_speaker_from(response@, ents, k as int, cursor as int);
                    let tr = split_remarks(response@.subrange(
                        start as int,
                        end as int,
                    ));
                    assert(rest_old == parse_combine(seq![parsed_row(ents[k - 1], tr.0, tr.1)], rest_new));
                    match rest_new {
                        Ok(tail) => {
                            assert(row_views(old_out) + (seq![row@] + tail) =~= row_views(out@)
                                + tail);
                        },
                        Err(e) => {},
                    }
                }
            },
        }
    }
    proof {
        assert(spec_parse_speaker_from(response@, ents, k as int, cursor as int) == Ok::<
            Seq<RowModel>,
            ParseError,
        >(Seq::<RowModel>::empty()));
        assert(row_views(out@) + Seq::<RowModel>::empty() =~= row_views(out@));
    }
    Ok(out)
}

/// The output row for keyed focus row `e`: keyed mode has no remarks
/// delimiter, so remarks stay absent.
pub open spec fn keyed_row(e: RowModel, text: Seq<char>) -> RowModel {
    RowModel {
        id: e.id,
        speaker: e.speaker,
        text: text,
        original: Some(e.text),
        original_back: None,
        remarks: None,
    }
}

/// Keyed-mode parse of `resp` for the rows `ents[k..]`, the cursor
/// standing at `cursor`. Stricter than speaker mode: a middle row's
/// segment must end at the next row's header, only the last row takes
/// the rest of the text.
pub open spec fn spec_parse_keyed_from(
    resp: Seq<char>,
    ents: Seq<RowModel>,
    k: int,
    cursor: int,
) -> Result<Seq<RowModel>, ParseError>
    decreases ents.len() - k when 0 <= k <= ents.len() && 0 <= cursor <= resp.len()
{
    if k >= ents.len() {
        Ok(Seq::<RowModel>::empty())
    } else if cursor >= resp.len() {
        Err(ParseError::Truncated)
    } else {
        let pat = keyed_pattern(ents[k].id);
        match spec_find(resp, pat, cursor) {
            None => Err(ParseError::AnchorNotFound(k as usize)),
            Some(p) => {
                let start = min_int(p + pat.len(), resp.len() - 1);
                let endr = if k + 1 == ents.len() {
                    Some(resp.len() as int)
                } else {
                    spec_find(resp, keyed_pattern(ents[k + 1].id), start)
                };
                match endr {
                    None => Err(ParseError::AnchorNotFound((k + 1) as usize)),
                    Some(end) => {
                        let text = trim(resp.subrange(start, end));
                        match spec_parse_keyed_from(resp, ents, k + 1, end) {
                            Ok(rest) => Ok(seq![keyed_row(ents[k], text)] + rest),
                            Err(e) => Err(e),
                        }
                    },
                }
            },
        }
    }
}

/// Keyed-mode parse of a whole reply.
pub open spec fn spec_parse_keyed(resp: Seq<char>, ents: Seq<RowModel>) -> Result<
    Seq<RowModel>,
    ParseError,
> {
    if resp.len() == 0 {
        Err(ParseError::EmptyResponse)
    } else {
        spec_parse_keyed_from(resp, ents, 0, 0)
    }
}

/// Re-segments a keyed-mode reply into one output row per focus row, in
/// order, anchoring on each row's `# <id>` header line.
pub fn process_ai_response_impl(response: &Vec<char>, entries: &Vec<Row>) -> (r: Result<
    Vec<Row>,
    ParseError,
>)
    ensures
        match r {
            Ok(out) => spec_parse_keyed(response@, row_views(entries@)) == Ok::<
                Seq<RowModel>,
                ParseError,
            >(row_views(out@)),
            Err(e) => spec_parse_keyed(response@, row_views(entries@)) == Err::<
                Seq<RowModel>,
                ParseError,
            >(e),
        },
        response@.len() == 0 ==> r == Err::<Vec<Row>, ParseError>(ParseError::EmptyResponse),
        r matches Ok(out) ==> out@.len() == entries@.len() && (forall|i: int|
            0 <= i < entries@.len() ==> (#[trigger] out@[i])@.id == entries@[i]@.id
                && out@[i]@.speaker == entries@[i]@.speaker && out@[i]@.original == Some(
                entries@[i]@.text,
            )),
{
    let ghost ents = row_views(entries@);
    if response.len() == 0 {
        return Err(ParseError::EmptyResponse);
    }
    let rlen = response.len();
    let mut out: Vec<Row> = Vec::new();
    let mut cursor: usize = 0;
    let mut k: usize = 0;
    proof {
        assert(row_views(out@) =~= Seq::<RowModel>::empty());
    }
    while k < entries.len()
        invariant
            0 <= k <= entries@.len(),
            ents == row_views(entries@),
            ents.len() == entries@.len(),
            out@.len() == k,
            0 <= cursor <= response@.len(),
            rlen == response@.len(),
            response@.len() > 0,
            spec_parse_keyed_from(response@, ents, 0, 0) == parse_combine(
                row_views(out@),
                spec_parse_keyed_from(response@, ents, k as int, cursor as int),
            ),
            forall|i: int|
                0 <= i < k ==> (#[trigger] out@[i])@.id == entries@[i]@.id
                    && out@[i]@.speaker == entries@[i]@.speaker && out@[i]@.original == Some(
                    entries@[i]@.text,
                ),
        decreases entries@.len() - k,
    {
        proof {
            assert(ents[k as int] == entries@[k as int]@);
        }
        if cursor >= rlen {
            return Err(ParseError::Truncated);
        }
        let pat = keyed_pattern_vec(&entries[k].id);
        let found = find_sub(response, &pat, cursor);
        match found {
            None => {
                return Err(ParseError::AnchorNotFound(k));
            },
            Some(p) => {
                proof {
                    lemma_find_some(response@, pat@, cursor as int);
                }
                let adv = p + pat.len();
                let start = if adv < rlen - 1 {
                    adv
                } else {
                    rlen - 1
                };
                proof {
                    assert(start as int == min_int(p + pat@.len(), response@.len() - 1));
                }
                let end: usize;
                if k + 1 == entries.len() {
                    end = rlen;
                } else {
                    proof {
                        assert(ents[k + 1] == entries@[k + 1]@);
                    }
                    let next_pat = keyed_pattern_vec(&entries[k + 1].id);
                    match find_sub(response, &next_pat, start) {
                        Some(e) => {
                            proof {
                                lemma_find_some(response@, next_pat@, start as int);
                            }
                            end = e;
                        },
                        None => {
                            return Err(ParseError::AnchorNotFound(k + 1));
                        },
                    }
                }
                let seg = subvec(response, start, end);
                let text = trim_chars(&seg);
                let row = Row {
                    id: copy_chars(&entries[k].id),
                    speaker: copy_chars(&entries[k].speaker),
                    text: text,
                    original: Some(copy_chars(&entries[k].text)),
                    original_back: None,
                    remarks: None,
                };
                proof {
                    assert(row@ == keyed_row(ents[k as int], trim(seg@)));
                }
                let ghost old_out = out@;
                let ghost old_cursor = cursor as int;
                out.push(row);
                cursor = end;
                k = k + 1;
                proof {
                    assert(row_views(out@) =~= row_views(old_out).push(row@));
                    let rest_old = spec_parse_keyed_from(response@, ents, k - 1, old_cursor);
                    let rest_new = spec_parse_keyed_from(response@, ents, k as int, cursor as int);
                    let text = trim(response@.subrange(start as int, end as int));
                    assert(rest_old == parse_combine(seq![keyed_row(ents[k - 1], text)], rest_new));
                    match rest_new {
                        Ok(tail) => {
                            assert(row_views(old_out) + (seq![row@] + tail) =~= row_views(out@)
                                + tail);
                        },
                        Err(e) => {},
                    }
                }
            },
        }
    }
    proof {
        assert(spec_parse_keyed_from(response@, ents, k as int, cursor as int) == Ok::<
            Seq<RowModel>,
            ParseError,
        >(Seq::<RowModel>::empty()));
        assert(row_views(out@) + Seq::<RowModel>::empty() =~= row_views(out@));
    }
    Ok(out)
}

} // verus!
