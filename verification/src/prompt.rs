//! Prompt construction.
//!
//! Pure rendering of a batch of focus rows plus context into one prompt
//! string, in one of two framings. Speaker-tag mode wraps each focus
//! row's speaker in the verbatim `{SPK}...{SPK}` anchor the parser will
//! search for, while context rows get only the lighter `##` marker the
//! parser ignores. Keyed mode emits a `# <id>` header per row, followed
//! by an `## Additional Context` block listing the auxiliary tracks'
//! texts — omitted entirely when every auxiliary text for that row is
//! empty.

use vstd::prelude::*;
use crate::rows::{Row, RowModel, LangSet, LangSetModel, row_views, lang_set_views};
use crate::parse::speaker_pattern;
use crate::text::{push_str, push_chars};

verus! {

/// How a context row is rendered in speaker-tag mode.
pub open spec fn context_line(r: RowModel) -> Seq<char> {
    "## "@ + r.speaker + "\n"@ + r.text + "\n"@
}

/// How a focus row is rendered in speaker-tag mode: its anchor, then
/// its text.
pub open spec fn focus_line(r: RowModel) -> Seq<char> {
    speaker_pattern(r.speaker) + "\n"@ + r.text + "\n"@
}

/// All context rows rendered in order.
pub open spec fn context_lines(rows: Seq<RowModel>) -> Seq<char>
    decreases rows.len()
{
    if rows.len() == 0 {
        Seq::<char>::empty()
    } else {
        context_lines(rows.drop_last()) + context_line(rows.last())
    }
}

/// All focus rows rendered in order.
pub open spec fn focus_lines(rows: Seq<RowModel>) -> Seq<char>
    decreases rows.len()
{
    if rows.len() == 0 {
        Seq::<char>::empty()
    } else {
        focus_lines(rows.drop_last()) + focus_line(rows.last())
    }
}

/// The whole speaker-tag prompt: directive, previous context, the
/// anchored focus rows, following context.
pub open spec fn spec_blender_prompt(
    pre: Seq<RowModel>,
    focus: Seq<RowModel>,
    post: Seq<RowModel>,
    dst_language: Seq<char>,
) -> Seq<char> {
    "Translate to "@ + dst_language + "\n"@ + "# CONTEXT PREVIOUS BEGIN\n"@ + context_lines(pre)
        + "# CONTEXT PREVIOUS END\n"@ + "# TEXT BEGIN\n"@ + focus_lines(focus) + "# TEXT END\n"@
        + "# CONTEXT AFTER BEGIN\n"@ + context_lines(post) + "# CONTEXT AFTER END\n"@
}

fn append_context_lines(out: &mut Vec<char>, rows: &Vec<Row>)
    ensures
        final(out)@ == old(out)@ + context_lines(row_views(rows@)),
{
    let ghost models = row_views(rows@);
    proof {
        assert(models.take(0) =~= Seq::<RowModel>::empty());
        assert(out@ =~= old(out)@ + context_lines(models.take(0)));
    }
    let mut i: usize = 0;
    while i < rows.len()
        invariant
            0 <= i <= rows@.len(),
            models == row_views(rows@),
            models.len() == rows@.len(),
            out@ == old(out)@ + context_lines(models.take(i as int)),
        decreases rows@.len() - i,
    {
        push_str(out, "## ");
        push_chars(out, &rows[i].speaker);
        push_str(out, "\n");
        push_chars(out, &rows[i].text);
        push_str(out, "\n");
        i += 1;
        proof {
            assert(models.take(i as int).drop_last() =~= models.take(i - 1));
            assert(models.take(i as int).last() == rows@[i - 1]@);
            assert(out@ =~= old(out)@ + context_lines(models.take(i as int)));
        }
    }
    proof {
        assert(models.take(rows@.len() as int) =~= models);
    }
}

fn append_focus_lines(out: &mut Vec<char>, rows: &Vec<Row>)
    ensures
        final(out)@ == old(out)@ + focus_lines(row_views(rows@)),
{
    let ghost models = row_views(rows@);
    proof {
        assert(models.take(0) =~= Seq::<RowModel>::empty());
        assert(out@ =~= old(out)@ + focus_lines(models.take(0)));
    }
    let mut i: usize = 0;
    while i < rows.len()
        invariant
            0 <= i <= rows@.len(),
            models == row_views(rows@),
            models.len() == rows@.len(),
            out@ == old(out)@ + focus_lines(models.take(i as int)),
        decreases rows@.len() - i,
    {
        push_str(out, "{SPK}");
        push_chars(out, &rows[i].speaker);
        push_str(out, "{SPK}");
        push_str(out, "\n");
        push_chars(out, &rows[i].text);
        push_str(out, "\n");
        i += 1;
        proof {
            assert(models.take(i as int).drop_last() =~= models.take(i - 1));
            assert(models.take(i as int).last() == rows@[i - 1]@);
            assert(out@ =~= old(out)@ + focus_lines(models.take(i as int)));
        }
    }
    proof {
        assert(models.take(rows@.len() as int) =~= models);
    }
}

/// Renders a batch of rows plus its context windows into one
/// speaker-tag prompt. Pure and total: the result is exactly the
/// rendering `spec_blender_prompt` describes.
pub fn generate_blender_prompt(
    pre_cxt: &Vec<Row>,
    to_translate: &Vec<Row>,
    pos_cxt: &Vec<Row>,
    dst_language: &Vec<char>,
) -> (prompt: Vec<char>)
    ensures
        prompt@ == spec_blender_prompt(
            row_views(pre_cxt@),
            row_views(to_translate@),
            row_views(pos_cxt@),
            dst_language@,
        ),
{
    let mut prompt: Vec<char> = Vec::new();
    push_str(&mut prompt, "Translate to ");
    push_chars(&mut prompt, dst_language);
    push_str(&mut prompt, "\n");
    push_str(&mut prompt, "# CONTEXT PREVIOUS BEGIN\n");
    append_context_lines(&mut prompt, pre_cxt);
    push_str(&mut prompt, "# CONTEXT PREVIOUS END\n");
    push_str(&mut prompt, "# TEXT BEGIN\n");
    append_focus_lines(&mut prompt, to_translate);
    push_str(&mut prompt, "# TEXT END\n");
    push_str(&mut prompt, "# CONTEXT AFTER BEGIN\n");
    append_context_lines(&mut prompt, pos_cxt);
    push_str(&mut prompt, "# CONTEXT AFTER END\n");
    proof {
        assert(prompt@ =~= spec_blender_prompt(
            row_views(pre_cxt@),
            row_views(to_translate@),
            row_views(pos_cxt@),
            dst_language@,
        ));
    }
    prompt
}

/// Whether some auxiliary track has text for row `i`.
pub open spec fn has_aux(aux: Seq<LangSetModel>, i: int) -> bool {
    exists|c: int| 0 <= c < aux.len() && (#[trigger] aux[c]).entries[i].text.len() > 0
}

/// How one auxiliary track's text for row `i` is rendered: nothing when
/// it is empty.
pub open spec fn aux_entry(c: LangSetModel, i: int) -> Seq<char> {
    if c.entries[i].text.len() > 0 {
        "\n\n### "@ + c.lang + "\n"@ + c.entries[i].text
    } else {
        Seq::<char>::empty()
    }
}

/// The auxiliary tracks' texts for row `i`, rendered in track order.
pub open spec fn aux_entries(aux: Seq<LangSetModel>, i: int) -> Seq<char>
    decreases aux.len()
{
    if aux.len() == 0 {
        Seq::<char>::empty()
    } else {
        aux_entries(aux.drop_last(), i) + aux_entry(aux.last(), i)
    }
}

/// The additional-context block for row `i`: present exactly when some
/// auxiliary track has text for it.
pub open spec fn aux_block(aux: Seq<LangSetModel>, i: int) -> Seq<char> {
    if has_aux(aux, i) {
        "\n\n## Additional Context"@ + aux_entries(aux, i)
    } else {
        Seq::<char>::empty()
    }
}

/// How one keyed focus row is rendered: its header line, its text, and
/// its additional-context block, if any.
pub open spec fn keyed_focus_block(r: RowModel, aux: Seq<LangSetModel>, i: int) -> Seq<char> {
    "\n\n# "@ + r.id + "\n"@ + r.text + aux_block(aux, i)
}

/// All keyed focus rows rendered in order; `from` is the absolute index
/// of the first focus row within the corpus, which the auxiliary tracks
/// are indexed by.
pub open spec fn keyed_blocks(focus: Seq<RowModel>, aux: Seq<LangSetModel>, from: int) -> Seq<char>
    decreases focus.len()
{
    if focus.len() == 0 {
        Seq::<char>::empty()
    } else {
        keyed_blocks(focus.drop_last(), aux, from) + keyed_focus_block(
            focus.last(),
            aux,
            from + focus.len() - 1,
        )
    }
}

/// The whole keyed prompt: one directive line, then each focus row's
/// block.
pub open spec fn spec_keyed_prompt(
    src_lang: Seq<char>,
    dst_lang: Seq<char>,
    focus: Seq<RowModel>,
    aux: Seq<LangSetModel>,
    from: int,
) -> Seq<char> {
    "Translate "@ + "from "@ + src_lang + " to: "@ + dst_lang + keyed_blocks(focus, aux, from)
}

/// If every auxiliary track's text for row `i` is empty, that row's
/// rendering carries no additional-context block at all.
pub proof fn lemma_aux_block_omitted(r: RowModel, aux: Seq<LangSetModel>, i: int)
    requires
        forall|c: int| 0 <= c < aux.len() ==> (#[trigger] aux[c]).entries[i].text.len() == 0,
    ensures
        keyed_focus_block(r, aux, i) == "\n\n# "@ + r.id + "\n"@ + r.text,
{
    assert(!has_aux(aux, i));
    assert("\n\n# "@ + r.id + "\n"@ + r.text + Seq::<char>::empty() =~= "\n\n# "@ + r.id + "\n"@
        + r.text);
}

/// Whether some auxiliary track has text for row `i`, executably.
fn has_aux_exec(aux: &Vec<LangSet>, i: usize) -> (r: bool)
    requires
        forall|c: int|
            0 <= c < aux@.len() ==> i < (#[trigger] aux@[c])@.entries.len(),
    ensures
        r == has_aux(lang_set_views(aux@), i as int),
{
    let ghost models = lang_set_views(aux@);
    let mut c: usize = 0;
    while c < aux.len()
        invariant
            0 <= c <= aux@.len(),
            models == lang_set_views(aux@),
            models.len() == aux@.len(),
            forall|t: int| 0 <= t < aux@.len() ==> i < (#[trigger] aux@[t])@.entries.len(),
            forall|t: int|
                0 <= t < c ==> (#[trigger] models[t]).entries[i as int].text.len() == 0,
        decreases aux@.len() - c,
    {
        proof {
            assert(models[c as int] == aux@[c as int]@);
            assert(models[c as int].entries[i as int] == aux@[c as int].entries@[i as int]@);
        }
        if aux[c].entries[i].text.len() > 0 {
            return true;
        }
        c += 1;
    }
    false
}

fn append_aux_entries(out: &mut Vec<char>, aux: &Vec<LangSet>, i: usize)
    requires
        forall|c: int|
            0 <= c < aux@.len() ==> i < (#[trigger] aux@[c])@.entries.len(),
    ensures
        final(out)@ == old(out)@ + aux_entries(lang_set_views(aux@), i as int),
{
    let ghost models = lang_set_views(aux@);
    proof {
        assert(models.take(0) =~= Seq::<LangSetModel>::empty());
        assert(out@ =~= old(out)@ + aux_entries(models.take(0), i as int));
    }
    let mut c: usize = 0;
    while c < aux.len()
        invariant
            0 <= c <= aux@.len(),
            models == lang_set_views(aux@),
            models.len() == aux@.len(),
            forall|t: int| 0 <= t < aux@.len() ==> i < (#[trigger] aux@[t])@.entries.len(),
            out@ == old(out)@ + aux_entries(models.take(c as int), i as int),
        decreases aux@.len() - c,
    {
        proof {
            assert(models[c as int] == aux@[c as int]@);
            assert(models[c as int].entries[i as int] == aux@[c as int].entries@[i as int]@);
        }
        if aux[c].entries[i].text.len() > 0 {
            push_str(out, "\n\n### ");
            push_chars(out, &aux[c].lang);
            push_str(out, "\n");
            push_chars(out, &aux[c].entries[i].text);
        }
        c += 1;
        proof {
            assert(models.take(c as int).drop_last() =~= models.take(c - 1));
            assert(models.take(c as int).last() == models[c - 1]);
            assert(out@ =~= old(out)@ + aux_entries(models.take(c as int), i as int));
        }
    }
    proof {
        assert(models.take(aux@.len() as int) =~= models);
    }
}

/// Renders a batch of keyed focus rows into one prompt. `from` is the
/// absolute corpus index of `focus[0]`; each auxiliary track must cover
/// the whole focus slice.
pub fn generate_keyed_prompt(
    src_lang: &Vec<char>,
    dst_lang: &Vec<char>,
    focus: &Vec<Row>,
    aux: &Vec<LangSet>,
    from: usize,
) -> (prompt: Vec<char>)
    requires
        from + focus@.len() <= usize::MAX,
        forall|c: int|
            0 <= c < aux@.len() ==> from + focus@.len() <= (#[trigger] aux@[c])@.entries.len(),
    ensures
        prompt@ == spec_keyed_prompt(
            src_lang@,
            dst_lang@,
            row_views(focus@),
            lang_set_views(aux@),
            from as int,
        ),
{
    let ghost models = row_views(focus@);
    let ghost auxm = lang_set_views(aux@);
    let mut prompt: Vec<char> = Vec::new();
    push_str(&mut prompt, "Translate ");
    push_str(&mut prompt, "from ");
    push_chars(&mut prompt, src_lang);
    push_str(&mut prompt, " to: ");
    push_chars(&mut prompt, dst_lang);
    let ghost header = "Translate "@ + "from "@ + src_lang@ + " to: "@ + dst_lang@;
    proof {
        assert(models.take(0) =~= Seq::<RowModel>::empty());
        assert(prompt@ =~= header + keyed_blocks(models.take(0), auxm, from as int));
    }
    let mut j: usize = 0;
    while j < focus.len()
        invariant
            0 <= j <= focus@.len(),
            models == row_views(focus@),
            models.len() == focus@.len(),
            auxm == lang_set_views(aux@),
            from + focus@.len() <= usize::MAX,
            forall|c: int|
                0 <= c < aux@.len() ==> from + focus@.len() <= (#[trigger] aux@[c])@.entries.len(),
            prompt@ == header + keyed_blocks(models.take(j as int), auxm, from as int),
        decreases focus@.len() - j,
    {
        let i = from + j;
        push_str(&mut prompt, "\n\n# ");
        push_chars(&mut prompt, &focus[j].id);
        push_str(&mut prompt, "\n");
        push_chars(&mut prompt, &focus[j].text);
        if has_aux_exec(aux, i) {
            push_str(&mut prompt, "\n\n## Additional Context");
            append_aux_entries(&mut prompt, aux, i);
        }
        j += 1;
        proof {
            assert(models.take(j as int).drop_last() =~= models.take(j - 1));
            assert(models.take(j as int).last() == focus@[j - 1]@);
            assert(prompt@ =~= header + keyed_blocks(models.take(j as int), auxm, from as int));
        }
    }
    proof {
        assert(models.take(focus@.len() as int) =~= models);
    }
    prompt
}

} // verus!
