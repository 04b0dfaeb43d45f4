//! The law that ties the prompt builder and the parser together: a
//! reply in exactly the format the builder itself emits for a batch of
//! focus rows parses back into those rows, text for text.

use vstd::prelude::*;
use crate::rows::RowModel;
use crate::errors::ParseError;
use crate::text::{
    match_at, spec_find, trim, trim_end, lemma_find_at, lemma_find_first_match, lemma_find_none,
};
use crate::parse::{
    spk_mark, rmk_mark, fence_mark, speaker_pattern, keyed_pattern, split_remarks, parsed_row,
    keyed_row, spec_parse_speaker, spec_parse_speaker_from, spec_parse_keyed,
    spec_parse_keyed_from, speaker_segment_end, min_int,
};
use crate::prompt::{focus_line, focus_lines, keyed_blocks, keyed_focus_block, aux_block};
use crate::rows::LangSetModel;

verus! {

/// The needle `m` occurs nowhere in `text`.
pub open spec fn free_of(text: Seq<char>, m: Seq<char>) -> bool {
    forall|q: int| !match_at(text, m, q)
}

/// `text` contains none of the protocol's delimiters, so it can ride
/// through a reply without being mistaken for structure.
pub open spec fn protocol_free(text: Seq<char>) -> bool {
    free_of(text, spk_mark()) && free_of(text, rmk_mark()) && free_of(text, fence_mark())
}

/// What parsing a faithfully formatted reply must recover for rows
/// `k..`: each row's rendered text, trimmed, with empty remarks.
pub open spec fn round_trip_outputs(ents: Seq<RowModel>, rows: Seq<RowModel>, k: int) -> Seq<
    RowModel,
> {
    Seq::new(
        (ents.len() - k) as nat,
        |j: int| parsed_row(ents[k + j], trim(rows[k + j].text), Seq::<char>::empty()),
    )
}

/// `focus_lines`, unrolled from the front.
pub open spec fn focus_tail(rows: Seq<RowModel>, k: int) -> Seq<char>
    decreases rows.len() - k when 0 <= k <= rows.len()
{
    if k >= rows.len() {
        Seq::<char>::empty()
    } else {
        focus_line(rows[k]) + focus_tail(rows, k + 1)
    }
}

proof fn lemma_tail_drop_last(rows: Seq<RowModel>, k: int)
    requires
        rows.len() > 0,
        0 <= k <= rows.len() - 1,
    ensures
        focus_tail(rows, k) == focus_tail(rows.drop_last(), k) + focus_line(rows.last()),
    decreases rows.len() - k,
{
    if k == rows.len() - 1 {
        assert(focus_tail(rows, k) == focus_line(rows[k]) + focus_tail(rows, k + 1));
        assert(focus_tail(rows, k + 1) == Seq::<char>::empty());
        assert(rows.drop_last().len() == k);
        assert(focus_tail(rows.drop_last(), k) == Seq::<char>::empty());
        assert(focus_tail(rows, k) =~= focus_tail(rows.drop_last(), k) + focus_line(rows.last()));
    } else {
        lemma_tail_drop_last(rows, k + 1);
        assert(rows.drop_last()[k] == rows[k]);
        assert(focus_line(rows[k]) + (focus_tail(rows.drop_last(), k + 1) + focus_line(
            rows.last(),
        )) =~= (focus_line(rows[k]) + focus_tail(rows.drop_last(), k + 1)) + focus_line(
            rows.last(),
        ));
    }
}

proof fn lemma_lines_eq_tail(rows: Seq<RowModel>)
    ensures
        focus_lines(rows) == focus_tail(rows, 0),
    decreases rows.len(),
{
    if rows.len() == 0 {
    } else {
        lemma_lines_eq_tail(rows.drop_last());
        lemma_tail_drop_last(rows, 0);
    }
}

/// Peels a known prefix off a suffix of `resp`.
proof fn lemma_peel(resp: Seq<char>, cursor: int, a: Seq<char>, b: Seq<char>)
    requires
        0 <= cursor,
        cursor + a.len() + b.len() == resp.len(),
        resp.subrange(cursor, resp.len() as int) == a + b,
    ensures
        match_at(resp, a, cursor),
        resp.subrange(cursor + a.len(), resp.len() as int) == b,
{
    let whole = resp.subrange(cursor, resp.len() as int);
    assert forall|p: int| 0 <= p < a.len() implies resp[cursor + p] == a[p] by {
        assert(whole[p] == resp[cursor + p]);
        assert((a + b)[p] == a[p]);
    }
    assert(resp.subrange(cursor, cursor + a.len()) =~= a);
    assert forall|p: int| 0 <= p < b.len() implies resp[cursor + a.len() + p] == b[p] by {
        assert(whole[a.len() + p] == resp[cursor + a.len() + p]);
        assert((a + b)[a.len() + p] == b[p]);
    }
    assert(resp.subrange(cursor + a.len(), resp.len() as int) =~= b);
}

/// Inside a region that renders `text` followed by a newline, a
/// newline-free needle that does not occur in `text` does not occur at
/// all.
proof fn lemma_no_match_in_text_region(resp: Seq<char>, m: Seq<char>, text: Seq<char>, s: int)
    requires
        0 <= s,
        s + text.len() + 1 <= resp.len(),
        resp.subrange(s, s + text.len() + 1) == text + seq!['\n'],
        free_of(text, m),
        m.len() >= 1,
        forall|i: int| 0 <= i < m.len() ==> m[i] != '\n',
    ensures
        forall|j: int| s <= j < s + text.len() + 1 ==> !match_at(resp, m, j),
{
    let e1 = s + text.len();
    let region = text + seq!['\n'];
    assert forall|j: int| s <= j < s + text.len() + 1 implies !match_at(resp, m, j) by {
        if match_at(resp, m, j) {
            let w = resp.subrange(j, j + m.len());
            if j + m.len() > e1 {
                let off = e1 - j;
                assert(0 <= off < m.len());
                assert(resp[e1] == resp.subrange(s, s + text.len() + 1)[text.len() as int]);
                assert(resp[e1] == '\n');
                assert(w[off] == resp[e1]);
                assert(m[off] == '\n');
                assert(false);
            } else {
                let q = j - s;
                assert forall|p: int| 0 <= p < m.len() implies text[q + p] == m[p] by {
                    assert(region[q + p] == resp[j + p]);
                    assert(region[q + p] == text[q + p]);
                    assert(w[p] == resp[j + p]);
                }
                assert(text.subrange(q, q + m.len()) =~= m);
                assert(match_at(text, m, q));
                assert(false);
            }
        }
    }
}

/// The delimiters' lengths and their freedom from newlines, read off
/// the literals.
proof fn lemma_delims()
    ensures
        spk_mark().len() == 5,
        rmk_mark().len() == 5,
        fence_mark().len() == 3,
        "\n"@ =~= seq!['\n'],
        forall|i: int| 0 <= i < 5 ==> #[trigger] spk_mark()[i] != '\n',
        forall|i: int| 0 <= i < 5 ==> #[trigger] rmk_mark()[i] != '\n',
        forall|i: int| 0 <= i < 3 ==> #[trigger] fence_mark()[i] != '\n',
{
    reveal_strlit("{SPK}");
    reveal_strlit("{RMK}");
    reveal_strlit("```");
    reveal_strlit("\n");
    assert("\n"@ =~= seq!['\n']);
    assert forall|i: int| 0 <= i < 5 implies #[trigger] spk_mark()[i] != '\n' by {
        if i == 0 || i == 1 || i == 2 || i == 3 || i == 4 {
        }
    }
    assert forall|i: int| 0 <= i < 5 implies #[trigger] rmk_mark()[i] != '\n' by {
        if i == 0 || i == 1 || i == 2 || i == 3 || i == 4 {
        }
    }
    assert forall|i: int| 0 <= i < 3 implies #[trigger] fence_mark()[i] != '\n' by {
        if i == 0 || i == 1 || i == 2 {
        }
    }
}

proof fn lemma_round_trip_from(
    resp: Seq<char>,
    ents: Seq<RowModel>,
    rows: Seq<RowModel>,
    k: int,
    cursor: int,
)
    requires
        ents.len() == rows.len(),
        0 <= k <= rows.len(),
        0 <= cursor <= resp.len(),
        resp.subrange(cursor, resp.len() as int) == focus_tail(rows, k),
        forall|j: int| k <= j < rows.len() ==> ents[j].speaker == (#[trigger] rows[j]).speaker,
        forall|j: int| k <= j < rows.len() ==> protocol_free((#[trigger] rows[j]).text),
    ensures
        spec_parse_speaker_from(resp, ents, k, cursor) == Ok::<Seq<RowModel>, ParseError>(
            round_trip_outputs(ents, rows, k),
        ),
    decreases rows.len() - k,
{
    lemma_delims();
    let n = rows.len() as int;
    if k >= n {
        assert(round_trip_outputs(ents, rows, k) =~= Seq::<RowModel>::empty());
    } else {
        let text = rows[k].text;
        let tl = text.len() as int;
        let nl = "\n"@;
        let pat = speaker_pattern(ents[k].speaker);
        let tail = focus_tail(rows, k + 1);
        assert(focus_tail(rows, k) == focus_line(rows[k]) + tail);
        assert(resp.subrange(cursor, resp.len() as int) =~= pat + (nl + (text + (nl + tail))));
        assert(cursor < resp.len());
        lemma_peel(resp, cursor, pat, nl + (text + (nl + tail)));
        lemma_find_at(resp, pat, cursor);
        lemma_peel(resp, cursor + pat.len(), nl, text + (nl + tail));
        let s = cursor + pat.len() + 1;
        assert(s as int == min_int(cursor + pat.len() + 1, resp.len() - 1));
        lemma_peel(resp, s, text, nl + tail);
        lemma_peel(resp, s + tl, nl, tail);
        let cn = s + tl + 1;
        assert(resp.subrange(cn, resp.len() as int) == tail);
        assert forall|p: int| 0 <= p < tl + 1 implies resp.subrange(s, s + tl + 1)[p] == (text
            + seq!['\n'])[p] by {
            if p < tl {
                assert(resp.subrange(s, s + tl)[p] == resp[s + p]);
            } else {
                assert(resp.subrange(s + tl, s + tl + 1)[0] == resp[s + tl]);
                assert(nl[0] == '\n');
            }
        }
        assert(resp.subrange(s, s + tl + 1) =~= text + seq!['\n']);
        assert(protocol_free(text));
        lemma_no_match_in_text_region(resp, spk_mark(), text, s);
        let end: int;
        if k + 1 < n {
            assert(focus_tail(rows, k + 1) == focus_line(rows[k + 1]) + focus_tail(rows, k + 2));
            let pat2 = speaker_pattern(rows[k + 1].speaker);
            let rest2 = (rows[k + 1].speaker + spk_mark()) + (nl + (rows[k + 1].text + (nl
                + focus_tail(rows, k + 2))));
            assert(resp.subrange(cn, resp.len() as int) =~= spk_mark() + rest2);
            lemma_peel(resp, cn, spk_mark(), rest2);
            lemma_find_first_match(resp, spk_mark(), s, cn);
            end = cn;
        } else {
            assert(tail =~= Seq::<char>::empty());
            assert(cn == resp.len());
            assert forall|j: int| s <= j implies !match_at(resp, spk_mark(), j) by {
                if j < cn {
                } else {
                    assert(j + spk_mark().len() > resp.len());
                }
            }
            lemma_find_none(resp, spk_mark(), s);
            lemma_no_match_in_text_region(resp, fence_mark(), text, s);
            assert forall|j: int| s <= j implies !match_at(resp, fence_mark(), j) by {
                if j < cn {
                } else {
                    assert(j + fence_mark().len() > resp.len());
                }
            }
            lemma_find_none(resp, fence_mark(), s);
            end = resp.len() as int;
        }
        assert(end == cn);
        assert(speaker_segment_end(resp, s) == end);
        let seg = resp.subrange(s, end);
        assert(seg == text + seq!['\n']);
        assert(seg.subrange(0, seg.len() as int) =~= seg);
        lemma_no_match_in_text_region(seg, rmk_mark(), text, 0);
        assert forall|j: int| 0 <= j implies !match_at(seg, rmk_mark(), j) by {
            if j < tl + 1 {
            } else {
                assert(j + rmk_mark().len() > seg.len());
            }
        }
        lemma_find_none(seg, rmk_mark(), 0);
        assert(split_remarks(seg) == (trim(seg), Seq::<char>::empty()));
        assert(seg[seg.len() - 1] == '\n');
        assert(seg.drop_last() =~= text);
        assert(trim_end(seg) == trim_end(text));
        assert(trim(seg) == trim(text));
        lemma_round_trip_from(resp, ents, rows, k + 1, cn);
        assert(spec_parse_speaker_from(resp, ents, k, cursor) == Ok::<
            Seq<RowModel>,
            ParseError,
        >(seq![parsed_row(ents[k], trim(text), Seq::<char>::empty())] + round_trip_outputs(
            ents,
            rows,
            k + 1,
        )));
        assert(seq![parsed_row(ents[k], trim(text), Seq::<char>::empty())] + round_trip_outputs(
            ents,
            rows,
            k + 1,
        ) =~= round_trip_outputs(ents, rows, k));
    }
}

/// A reply that nowhere after the cursor contains the current focus
/// row's anchor fails with that row's index — the row is reported, not
/// silently skipped.
pub proof fn lemma_anchor_missing_speaker(
    resp: Seq<char>,
    ents: Seq<RowModel>,
    k: int,
    cursor: int,
)
    requires
        0 <= k < ents.len(),
        0 <= cursor < resp.len(),
        spec_find(resp, speaker_pattern(ents[k].speaker), cursor) is None,
    ensures
        spec_parse_speaker_from(resp, ents, k, cursor) == Err::<Seq<RowModel>, ParseError>(
            ParseError::AnchorNotFound(k as usize),
        ),
{
}

/// Round trip on well-formed input: a reply that is exactly the prompt
/// builder's own rendering of a batch of focus rows — same speakers,
/// any delimiter-free texts — parses successfully, and row `k`'s output
/// carries `rows[k]`'s text trimmed of surrounding whitespace, with
/// empty remarks.
pub proof fn lemma_round_trip_speaker(ents: Seq<RowModel>, rows: Seq<RowModel>)
    requires
        ents.len() == rows.len(),
        rows.len() > 0,
        forall|j: int| 0 <= j < rows.len() ==> ents[j].speaker == (#[trigger] rows[j]).speaker,
        forall|j: int| 0 <= j < rows.len() ==> protocol_free((#[trigger] rows[j]).text),
    ensures
        spec_parse_speaker(focus_lines(rows), ents) == Ok::<Seq<RowModel>, ParseError>(
            round_trip_outputs(ents, rows, 0),
        ),
{
    lemma_delims();
    lemma_lines_eq_tail(rows);
    let resp = focus_lines(rows);
    assert(focus_tail(rows, 0) == focus_line(rows[0]) + focus_tail(rows, 1));
    assert(resp.len() > 0);
    assert(resp.subrange(0, resp.len() as int) =~= resp);
    lemma_round_trip_from(resp, ents, rows, 0, 0);
}

/// `text` never contains the character that opens a keyed header line,
/// so no header anchor can begin inside it.
pub open spec fn header_free(text: Seq<char>) -> bool {
    forall|i: int| 0 <= i < text.len() ==> text[i] != '#'
}

/// What parsing a faithfully formatted keyed reply must recover for
/// rows `k..`: each row's rendered text, trimmed, without remarks.
pub open spec fn keyed_round_outputs(ents: Seq<RowModel>, rows: Seq<RowModel>, k: int) -> Seq<
    RowModel,
> {
    Seq::new((ents.len() - k) as nat, |j: int| keyed_row(ents[k + j], trim(rows[k + j].text)))
}

/// The keyed focus blocks with no auxiliary tracks, unrolled from the
/// front.
pub open spec fn keyed_tail(rows: Seq<RowModel>, k: int) -> Seq<char>
    decreases rows.len() - k when 0 <= k <= rows.len()
{
    if k >= rows.len() {
        Seq::<char>::empty()
    } else {
        "\n\n# "@ + rows[k].id + "\n"@ + rows[k].text + keyed_tail(rows, k + 1)
    }
}

proof fn lemma_keyed_tail_drop_last(rows: Seq<RowModel>, k: int)
    requires
        rows.len() > 0,
        0 <= k <= rows.len() - 1,
    ensures
        keyed_tail(rows, k) == keyed_tail(rows.drop_last(), k) + ("\n\n# "@ + rows.last().id
            + "\n"@ + rows.last().text),
    decreases rows.len() - k,
{
    if k == rows.len() - 1 {
        assert(keyed_tail(rows, k + 1) == Seq::<char>::empty());
        assert(rows.drop_last().len() == k);
        assert(keyed_tail(rows.drop_last(), k) == Seq::<char>::empty());
        assert(keyed_tail(rows, k) =~= keyed_tail(rows.drop_last(), k) + ("\n\n# "@
            + rows.last().id + "\n"@ + rows.last().text));
    } else {
        lemma_keyed_tail_drop_last(rows, k + 1);
        assert(rows.drop_last()[k] == rows[k]);
        assert(("\n\n# "@ + rows[k].id + "\n"@ + rows[k].text) + (keyed_tail(
            rows.drop_last(),
            k + 1,
        ) + ("\n\n# "@ + rows.last().id + "\n"@ + rows.last().text)) =~= (("\n\n# "@ + rows[k].id
            + "\n"@ + rows[k].text) + keyed_tail(rows.drop_last(), k + 1)) + ("\n\n# "@
            + rows.last().id + "\n"@ + rows.last().text));
    }
}

proof fn lemma_keyed_blocks_eq_tail(rows: Seq<RowModel>, from: int)
    ensures
        keyed_blocks(rows, Seq::<LangSetModel>::empty(), from) == keyed_tail(rows, 0),
    decreases rows.len(),
{
    let aux = Seq::<LangSetModel>::empty();
    if rows.len() == 0 {
    } else {
        lemma_keyed_blocks_eq_tail(rows.drop_last(), from);
        lemma_keyed_tail_drop_last(rows, 0);
        let r = rows.last();
        assert(aux_block(aux, from + rows.len() - 1) == Seq::<char>::empty());
        assert(keyed_focus_block(r, aux, from + rows.len() - 1) =~= "\n\n# "@ + r.id + "\n"@
            + r.text);
    }
}

proof fn lemma_keyed_round_trip_from(
    resp: Seq<char>,
    ents: Seq<RowModel>,
    rows: Seq<RowModel>,
    k: int,
    cursor: int,
    a: int,
)
    requires
        ents.len() == rows.len(),
        0 <= k < rows.len(),
        forall|j: int| k <= j < rows.len() ==> ents[j].id == (#[trigger] rows[j]).id,
        forall|j: int| k <= j < rows.len() ==> header_free((#[trigger] rows[j]).text),
        0 <= cursor <= a,
        a + keyed_pattern(rows[k].id).len() <= resp.len(),
        match_at(resp, keyed_pattern(rows[k].id), a),
        forall|j: int| cursor <= j < a ==> !match_at(resp, keyed_pattern(rows[k].id), j),
        resp.subrange(a + keyed_pattern(rows[k].id).len(), resp.len() as int) == rows[k].text
            + keyed_tail(rows, k + 1),
    ensures
        spec_parse_keyed_from(resp, ents, k, cursor) == Ok::<Seq<RowModel>, ParseError>(
            keyed_round_outputs(ents, rows, k),
        ),
    decreases rows.len() - k,
{
    reveal_strlit("# ");
    reveal_strlit("\n");
    reveal_strlit("\n\n# ");
    let n = rows.len() as int;
    let pat = keyed_pattern(rows[k].id);
    let text = rows[k].text;
    let tl = text.len() as int;
    let tail = keyed_tail(rows, k + 1);
    let s = a + pat.len();
    assert(cursor < resp.len());
    lemma_find_first_match(resp, pat, cursor, a);
    assert(keyed_pattern(ents[k].id) == pat);
    let start = min_int(s, resp.len() - 1);
    if k + 1 == n {
        assert(tail == Seq::<char>::empty());
        assert(s + tl == resp.len());
        if tl == 0 {
            assert(start == resp.len() - 1);
            let seg = resp.subrange(start, resp.len() as int);
            assert(pat.len() >= 3) by {
                assert(pat =~= "# "@ + rows[k].id + "\n"@);
            }
            assert(resp[resp.len() - 1] == pat[pat.len() - 1]) by {
                assert(resp.subrange(a, a + pat.len()) == pat);
                assert(resp.subrange(a, a + pat.len())[pat.len() - 1] == resp[a + pat.len() - 1]);
            }
            assert(pat[pat.len() - 1] == '\n') by {
                assert(pat =~= "# "@ + rows[k].id + "\n"@);
            }
            assert(seg =~= seq!['\n']);
            assert(seg.drop_last() =~= Seq::<char>::empty());
            assert(trim_end(seg) == trim_end(Seq::<char>::empty()));
            assert(trim(seg) == trim(text));
        } else {
            assert(start == s);
            let seg = resp.subrange(s, resp.len() as int);
            assert(seg =~= text);
        }
        assert(spec_parse_keyed_from(resp, ents, k + 1, resp.len() as int) == Ok::<
            Seq<RowModel>,
            ParseError,
        >(Seq::<RowModel>::empty()));
        assert(seq![keyed_row(ents[k], trim(text))] + Seq::<RowModel>::empty()
            =~= keyed_round_outputs(ents, rows, k));
    } else {
        assert(keyed_tail(rows, k + 1) == "\n\n# "@ + rows[k + 1].id + "\n"@ + rows[k + 1].text
            + keyed_tail(rows, k + 2));
        let pat2 = keyed_pattern(rows[k + 1].id);
        let a2 = s + tl + 2;
        let rest2 = rows[k + 1].text + keyed_tail(rows, k + 2);
        assert(resp.subrange(s, resp.len() as int) =~= (text + "\n\n"@) + (pat2 + rest2)) by {
            reveal_strlit("\n\n");
            assert(pat2 =~= "# "@ + rows[k + 1].id + "\n"@);
            assert(text + ("\n\n# "@ + rows[k + 1].id + "\n"@ + rows[k + 1].text + keyed_tail(
                rows,
                k + 2,
            )) =~= (text + "\n\n"@) + (pat2 + rest2));
        }
        lemma_peel(resp, s, text + "\n\n"@, pat2 + rest2);
        assert((text + "\n\n"@).len() == tl + 2) by {
            reveal_strlit("\n\n");
        }
        lemma_peel(resp, a2, pat2, rest2);
        assert(s + tl + 2 <= resp.len());
        assert(start == s);
        // No keyed header can begin before the next block's own header.
        assert(pat2[0] == '#') by {
            assert(pat2 =~= "# "@ + rows[k + 1].id + "\n"@);
        }
        assert forall|j: int| s <= j < a2 implies !match_at(resp, pat2, j) by {
            if match_at(resp, pat2, j) {
                assert(resp.subrange(j, j + pat2.len())[0] == resp[j]);
                assert(resp[j] == '#');
                let reg = text + "\n\n"@;
                assert(resp.subrange(s, s + tl + 2) == reg);
                assert(resp.subrange(s, s + tl + 2)[j - s] == resp[j]);
                if j - s < tl {
                    assert(reg[j - s] == text[j - s]);
                    assert(header_free(text));
                    assert(false);
                } else {
                    assert(reg[j - s] == "\n\n"@[j - s - tl]);
                    assert("\n\n"@[0] == '\n' && "\n\n"@[1] == '\n') by {
                        reveal_strlit("\n\n");
                    }
                    assert(false);
                }
            }
        }
        lemma_find_first_match(resp, pat2, s, a2);
        let seg = resp.subrange(s, a2);
        assert(seg =~= text + "\n\n"@);
        assert(seg[seg.len() - 1] == '\n' && seg[seg.len() - 2] == '\n') by {
            reveal_strlit("\n\n");
            assert(seg[tl] == "\n\n"@[0]);
            assert(seg[tl + 1] == "\n\n"@[1]);
        }
        assert(seg.drop_last() =~= text + seq!['\n']);
        assert((text + seq!['\n']).drop_last() =~= text);
        assert(trim_end(seg) == trim_end(seg.drop_last()));
        assert(trim_end(seg.drop_last()) == trim_end(text));
        assert(trim(seg) == trim(text));
        lemma_keyed_round_trip_from(resp, ents, rows, k + 1, a2, a2);
        assert(seq![keyed_row(ents[k], trim(text))] + keyed_round_outputs(ents, rows, k + 1)
            =~= keyed_round_outputs(ents, rows, k));
    }
}

/// Round trip on well-formed keyed input: a reply that is exactly the
/// keyed prompt's own rendering of a batch of focus rows with no
/// auxiliary context — same ids, any texts free of the header
/// character — parses successfully, and row `k`'s output carries
/// `rows[k]`'s text trimmed of surrounding whitespace.
pub proof fn lemma_round_trip_keyed(ents: Seq<RowModel>, rows: Seq<RowModel>, from: int)
    requires
        ents.len() == rows.len(),
        rows.len() > 0,
        forall|j: int| 0 <= j < rows.len() ==> ents[j].id == (#[trigger] rows[j]).id,
        forall|j: int| 0 <= j < rows.len() ==> header_free((#[trigger] rows[j]).text),
    ensures
        spec_parse_keyed(keyed_blocks(rows, Seq::<LangSetModel>::empty(), from), ents) == Ok::<
            Seq<RowModel>,
            ParseError,
        >(keyed_round_outputs(ents, rows, 0)),
{
    reveal_strlit("\n\n# ");
    reveal_strlit("# ");
    reveal_strlit("\n");
    reveal_strlit("\n\n");
    lemma_keyed_blocks_eq_tail(rows, from);
    let resp = keyed_blocks(rows, Seq::<LangSetModel>::empty(), from);
    assert(resp == keyed_tail(rows, 0));
    assert(keyed_tail(rows, 0) == "\n\n# "@ + rows[0].id + "\n"@ + rows[0].text + keyed_tail(
        rows,
        1,
    ));
    let pat = keyed_pattern(rows[0].id);
    let rest = rows[0].text + keyed_tail(rows, 1);
    assert(resp.subrange(0, resp.len() as int) =~= resp);
    assert(resp =~= "\n\n"@ + (pat + rest)) by {
        assert(pat =~= "# "@ + rows[0].id + "\n"@);
        assert("\n\n# "@ + rows[0].id + "\n"@ + rows[0].text + keyed_tail(rows, 1) =~= "\n\n"@
            + (pat + rest));
    }
    lemma_peel(resp, 0, "\n\n"@, pat + rest);
    lemma_peel(resp, 2, pat, rest);
    assert(resp.len() > 0);
    assert(pat[0] == '#') by {
        assert(pat =~= "# "@ + rows[0].id + "\n"@);
    }
    assert forall|j: int| 0 <= j < 2 implies !match_at(resp, pat, j) by {
        if match_at(resp, pat, j) {
            assert(resp.subrange(j, j + pat.len())[0] == resp[j]);
            assert(resp[j] == '#');
            assert(resp[0] == '\n' && resp[1] == '\n') by {
                assert(resp.subrange(0, 2) == "\n\n"@);
                assert(resp.subrange(0, 2)[0] == resp[0]);
                assert(resp.subrange(0, 2)[1] == resp[1]);
            }
            assert(false);
        }
    }
    lemma_keyed_round_trip_from(resp, ents, rows, 0, 0, 2);
}

} // verus!

