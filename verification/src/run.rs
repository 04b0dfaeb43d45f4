//! The retry controller and batch orchestrator as one explicit state
//! machine.
//!
//! The caller owns the only effectful step — sending a prompt to the
//! completion service — so the machine exposes the cycle as: ask for the
//! current prompt, perform the call, feed the reply back. The machine
//! parses, counts attempts, and on exhaustion either degrades the batch
//! to placeholder rows (so the corpus-length invariant survives) or, in
//! strict mode, fails the whole run. A reply that timed out is fed in as
//! the empty string, which the parser rejects like any malformed reply,
//! unifying the two into one retry path.

use vstd::prelude::*;
use crate::errors::ParseError;
use crate::rows::{Row, RowModel, LangSet, LangSetModel, row_views, lang_set_views, copy_opt};
use crate::parse::{
    spec_parse_speaker, spec_parse_keyed, min_int, process_ai_response, process_ai_response_impl,
};
use crate::prompt::{
    spec_blender_prompt, spec_keyed_prompt, generate_blender_prompt, generate_keyed_prompt,
};
use crate::text::{copy_chars, push_str, push_chars};

verus! {

/// The literal remark that marks a placeholder row produced after the
/// attempt budget ran out, so downstream readers can filter such rows.
pub open spec fn giveup_mark() -> Seq<char> {
    "AI ERROR. GIVEN UP."@
}

/// The corpus framing: speaker-tagged rows with sliding context
/// windows, or keyed rows with auxiliary language tracks as context.
pub enum Mode {
    Speaker { pre_ctx: usize, post_ctx: usize },
    Keyed { src_lang: Vec<char>, aux: Vec<LangSet> },
}

/// Where a run stands.
#[derive(Debug, PartialEq, Eq, Structural, Clone, Copy)]
pub enum Phase {
    /// Some batch still waits for a valid reply.
    Working,
    /// Every row has an output row.
    Done,
    /// A strict run gave up on a batch and aborted.
    Failed,
}

/// What one fed reply did to the run.
#[derive(Debug, PartialEq, Eq, Structural, Clone, Copy)]
pub enum Step {
    /// The reply parsed; the batch's rows were appended.
    Advanced,
    /// The reply did not parse and attempts remain: log it and call the
    /// service again with the same prompt.
    Retry(ParseError),
    /// The reply did not parse, the budget is spent, and the batch was
    /// degraded to placeholder rows; the run continues.
    GaveUp(ParseError),
    /// The reply did not parse, the budget is spent, and the run is
    /// strict: the run failed.
    Aborted(ParseError),
}

/// Computes one batch's slice bounds and clamped context windows:
/// `(pre_from, to, post_to)` for the batch `[from, to)` of a corpus of
/// `len` rows. Context never crosses a corpus boundary: the first batch
/// has no previous context and the last has no following context.
pub fn batch_window(len: usize, from: usize, batch_size: usize, pre_ctx: usize, post_ctx: usize)
    -> (w: (usize, usize, usize))
    requires
        from < len,
        batch_size >= 1,
    ensures
        w.0 as int == from - min_int(pre_ctx as int, from as int),
        w.1 as int == min_int(from + batch_size, len as int),
        w.2 as int == min_int(w.1 + post_ctx, len as int),
        from <= w.1 <= w.2 <= len,
        w.0 <= from,
        from == 0 ==> w.0 == from,
        w.1 == len ==> w.2 == w.1,
{
    let pre_from = if pre_ctx < from {
        from - pre_ctx
    } else {
        0
    };
    let to = if batch_size < len - from {
        from + batch_size
    } else {
        len
    };
    let post_to = if post_ctx < len - to {
        to + post_ctx
    } else {
        len
    };
    (pre_from, to, post_to)
}

/// Output row `i` keeps input row `i`'s identity, and the input text
/// moves into `original`: the alignment the whole system exists to
/// uphold.
pub open spec fn aligned(out: Seq<RowModel>, corpus: Seq<RowModel>, n: int) -> bool {
    forall|i: int|
        0 <= i < n ==> (#[trigger] out[i]).id == corpus[i].id && out[i].speaker
            == corpus[i].speaker && out[i].original == Some(corpus[i].text)
}

/// The placeholder appended for row `e` when a batch is given up on:
/// empty text, marked remarks.
pub open spec fn placeholder_model(e: RowModel) -> RowModel {
    RowModel {
        id: e.id,
        speaker: e.speaker,
        text: Seq::<char>::empty(),
        original: Some(e.text),
        original_back: None,
        remarks: Some(giveup_mark()),
    }
}

/// One translation pass over one corpus, driven batch by batch.
pub struct TranslateRun {
    /// The rows to translate, fixed for the whole run; context is
    /// always drawn from here, never from produced output.
    pub corpus: Vec<Row>,
    /// The destination language, named in every prompt.
    pub directive: Vec<char>,
    /// The corpus framing.
    pub mode: Mode,
    /// How many rows each prompt asks to translate.
    pub batch_size: usize,
    /// How many replies may be tried per batch before giving up.
    pub max_attempts: usize,
    /// On exhaustion: fail the run (`true`) or degrade the batch to
    /// placeholders and continue (`false`).
    pub strict: bool,
    /// Index of the first row not yet owning an output row.
    pub pos: usize,
    /// Replies already tried for the current batch.
    pub attempt: usize,
    /// Output rows for `corpus[..pos]`, in corpus order.
    pub output: Vec<Row>,
    pub phase: Phase,
}

impl TranslateRun {
    /// The machine's invariant.
    pub open spec fn wf(self) -> bool {
        &&& self.batch_size >= 1
        &&& self.max_attempts >= 1
        &&& self.pos <= self.corpus@.len()
        &&& self.output@.len() == self.pos
        &&& self.attempt < self.max_attempts
        &&& aligned(row_views(self.output@), row_views(self.corpus@), self.pos as int)
        &&& (self.mode matches Mode::Keyed { aux, .. } ==> forall|c: int|
            0 <= c < aux@.len() ==> (#[trigger] aux@[c])@.entries.len() == self.corpus@.len())
        &&& (self.phase is Done <==> self.pos == self.corpus@.len())
        &&& (self.phase is Working ==> self.pos < self.corpus@.len())
    }

    /// Where the current batch ends.
    pub open spec fn spec_batch_end(self) -> int {
        min_int(self.pos + self.batch_size, self.corpus@.len() as int)
    }

    /// The models of the current batch's focus rows.
    pub open spec fn focus_models(self) -> Seq<RowModel> {
        row_views(self.corpus@).subrange(self.pos as int, self.spec_batch_end())
    }

    /// What the mode's parser says of a reply for the current batch.
    pub open spec fn batch_parse(self, resp: Seq<char>) -> Result<Seq<RowModel>, ParseError> {
        match self.mode {
            Mode::Speaker { .. } => spec_parse_speaker(resp, self.focus_models()),
            Mode::Keyed { .. } => spec_parse_keyed(resp, self.focus_models()),
        }
    }

    /// The prompt the current batch sends, as the mode renders it.
    pub open spec fn spec_prompt(self) -> Seq<char> {
        match self.mode {
            Mode::Speaker { pre_ctx, post_ctx } => {
                let models = row_views(self.corpus@);
                let from = self.pos as int;
                let to = self.spec_batch_end();
                let pre_from = from - min_int(pre_ctx as int, from);
                let post_to = min_int(to + post_ctx, self.corpus@.len() as int);
                spec_blender_prompt(
                    models.subrange(pre_from, from),
                    models.subrange(from, to),
                    models.subrange(to, post_to),
                    self.directive@,
                )
            },
            Mode::Keyed { src_lang, aux } => spec_keyed_prompt(
                src_lang@,
                self.directive@,
                self.focus_models(),
                lang_set_views(aux@),
                self.pos as int,
            ),
        }
    }

    /// Starts a pass. A corpus with no rows is complete at once.
    pub fn new(
        corpus: Vec<Row>,
        directive: Vec<char>,
        mode: Mode,
        batch_size: usize,
        max_attempts: usize,
        strict: bool,
    ) -> (run: TranslateRun)
        requires
            batch_size >= 1,
            max_attempts >= 1,
            mode matches Mode::Keyed { aux, .. } ==> forall|c: int|
                0 <= c < aux@.len() ==> (#[trigger] aux@[c])@.entries.len() == corpus@.len(),
        ensures
            run.wf(),
            run.corpus == corpus,
            run.directive == directive,
            run.mode == mode,
            run.batch_size == batch_size,
            run.max_attempts == max_attempts,
            run.strict == strict,
            run.pos == 0,
            run.attempt == 0,
            run.output@.len() == 0,
            run.phase == (if corpus@.len() == 0 {
                Phase::Done
            } else {
                Phase::Working
            }),
    {
        let phase = if corpus.len() == 0 {
            Phase::Done
        } else {
            Phase::Working
        };
        TranslateRun {
            corpus,
            directive,
            mode,
            batch_size,
            max_attempts,
            strict,
            pos: 0,
            attempt: 0,
            output: Vec::new(),
            phase,
        }
    }

    /// The prompt to send for the current batch. Pure: asking twice
    /// (as a retry does) renders the same prompt.
    pub fn prompt(&self) -> (p: Vec<char>)
        requires
            self.wf(),
            self.phase is Working,
        ensures
            p@ == self.spec_prompt(),
    {
        let len = self.corpus.len();
        match &self.mode {
            Mode::Speaker { pre_ctx, post_ctx } => {
                let (pre_from, to, post_to) = batch_window(
                    len,
                    self.pos,
                    self.batch_size,
                    *pre_ctx,
                    *post_ctx,
                );
                let pre = sub_rows(&self.corpus, pre_from, self.pos);
                let focus = sub_rows(&self.corpus, self.pos, to);
                let post = sub_rows(&self.corpus, to, post_to);
                generate_blender_prompt(&pre, &focus, &post, &self.directive)
            },
            Mode::Keyed { src_lang, aux } => {
                let to = if self.batch_size < len - self.pos {
                    self.pos + self.batch_size
                } else {
                    len
                };
                let focus = sub_rows(&self.corpus, self.pos, to);
                generate_keyed_prompt(src_lang, &self.directive, &focus, aux, self.pos)
            },
        }
    }

    /// Feeds the service's reply for the current batch. Parses it,
    /// advances on success, counts the attempt on failure, and applies
    /// the give-up policy when the budget runs out. The caller treats a
    /// timed-out call as an empty reply and feeds that.
    pub fn feed(&mut self, response: &Vec<char>) -> (step: Step)
        requires
            old(self).wf(),
            old(self).phase is Working,
        ensures
            final(self).wf(),
            final(self).corpus == old(self).corpus,
            final(self).directive == old(self).directive,
            final(self).mode == old(self).mode,
            final(self).batch_size == old(self).batch_size,
            final(self).max_attempts == old(self).max_attempts,
            final(self).strict == old(self).strict,
            (step is Advanced) <==> old(self).batch_parse(response@) is Ok,
            match step {
                Step::Advanced => {
                    &&& final(self).pos as int == old(self).spec_batch_end()
                    &&& final(self).attempt == 0
                    &&& final(self).output@.subrange(0, old(self).pos as int) == old(self).output@
                    &&& old(self).batch_parse(response@) == Ok::<Seq<RowModel>, ParseError>(
                        row_views(
                            final(self).output@.subrange(
                                old(self).pos as int,
                                final(self).pos as int,
                            ),
                        ),
                    )
                    &&& final(self).phase == (if final(self).pos == final(self).corpus@.len() {
                        Phase::Done
                    } else {
                        Phase::Working
                    })
                },
                Step::Retry(e) => {
                    &&& old(self).batch_parse(response@) == Err::<Seq<RowModel>, ParseError>(e)
                    &&& old(self).attempt + 1 < old(self).max_attempts
                    &&& final(self).attempt == old(self).attempt + 1
                    &&& final(self).pos == old(self).pos
                    &&& final(self).output == old(self).output
                    &&& final(self).phase is Working
                },
                Step::GaveUp(e) => {
                    &&& old(self).batch_parse(response@) == Err::<Seq<RowModel>, ParseError>(e)
                    &&& old(self).attempt + 1 == old(self).max_attempts
                    &&& !old(self).strict
                    &&& final(self).pos as int == old(self).spec_batch_end()
                    &&& final(self).attempt == 0
                    &&& final(self).output@.subrange(0, old(self).pos as int) == old(self).output@
                    &&& row_views(
                        final(self).output@.subrange(old(self).pos as int, final(self).pos as int),
                    ) == old(self).focus_models().map_values(|e: RowModel| placeholder_model(e))
                    &&& final(self).phase == (if final(self).pos == final(self).corpus@.len() {
                        Phase::Done
                    } else {
                        Phase::Working
                    })
                },
                Step::Aborted(e) => {
                    &&& old(self).batch_parse(response@) == Err::<Seq<RowModel>, ParseError>(e)
                    &&& old(self).attempt + 1 == old(self).max_attempts
                    &&& old(self).strict
                    &&& final(self).pos == old(self).pos
                    &&& final(self).output == old(self).output
                    &&& final(self).phase is Failed
                },
            },
    {
        let len = self.corpus.len();
        let to = if self.batch_size < len - self.pos {
            self.pos + self.batch_size
        } else {
            len
        };
        let focus = sub_rows(&self.corpus, self.pos, to);
        proof {
            assert(row_views(focus@) =~= self.focus_models());
        }
        let parsed = match &self.mode {
            Mode::Speaker { .. } => {
                let p = process_ai_response(response, &focus);
                proof {
                    assert(old(self).batch_parse(response@) == result_models(p));
                }
                p
            },
            Mode::Keyed { .. } => {
                let p = process_ai_response_impl(response, &focus);
                proof {
                    assert(old(self).batch_parse(response@) == result_models(p));
                }
                p
            },
        };
        match parsed {
            Ok(mut rows) => {
                let ghost rseq = rows@;
                let ghost old_out = self.output@;
                self.output.append(&mut rows);
                self.pos = to;
                self.attempt = 0;
                self.phase = if self.pos == len {
                    Phase::Done
                } else {
                    Phase::Working
                };
                proof {
                    self.lemma_appended_batch(*old(self), old_out, rseq, row_views(focus@));
                }
                Step::Advanced
            },
            Err(e) => {
                if self.attempt + 1 < self.max_attempts {
                    self.attempt = self.attempt + 1;
                    Step::Retry(e)
                } else if self.strict {
                    self.phase = Phase::Failed;
                    Step::Aborted(e)
                } else {
                    let mut fillers = placeholder_rows(&focus);
                    let ghost rseq = fillers@;
                    let ghost old_out = self.output@;
                    self.output.append(&mut fillers);
                    self.pos = to;
                    self.attempt = 0;
                    self.phase = if self.pos == len {
                        Phase::Done
                    } else {
                        Phase::Working
                    };
                    proof {
                        let fm = row_views(focus@);
                        assert forall|j: int|
                            0 <= j < rseq.len() implies (#[trigger] rseq[j])@.id == fm[j].id
                            && rseq[j]@.speaker == fm[j].speaker && rseq[j]@.original == Some(
                            fm[j].text,
                        ) by {
                            assert(row_views(rseq)[j] == rseq[j]@);
                            assert(row_views(rseq)[j] == fm.map_values(
                                |e: RowModel| placeholder_model(e),
                            )[j]);
                        }
                        self.lemma_appended_batch(*old(self), old_out, rseq, row_views(focus@));
                    }
                    Step::GaveUp(e)
                }
            },
        }
    }

    /// After a batch's rows (parsed or placeholder) were appended, the
    /// output splits into the old prefix and the new rows, and stays
    /// aligned with the corpus as long as each new row keeps its focus
    /// row's identity.
    proof fn lemma_appended_batch(
        self,
        prev: TranslateRun,
        old_out: Seq<Row>,
        rseq: Seq<Row>,
        focus: Seq<RowModel>,
    )
        requires
            prev.wf(),
            self.corpus == prev.corpus,
            self.output@ == old_out + rseq,
            old_out == prev.output@,
            self.pos as int == prev.spec_batch_end(),
            focus == prev.focus_models(),
            rseq.len() == focus.len(),
            forall|j: int|
                0 <= j < rseq.len() ==> (#[trigger] rseq[j])@.id == focus[j].id && rseq[j]@.speaker
                    == focus[j].speaker && rseq[j]@.original == Some(focus[j].text),
        ensures
            self.output@.len() == self.pos,
            self.output@.subrange(0, prev.pos as int) == prev.output@,
            row_views(self.output@.subrange(prev.pos as int, self.pos as int)) == row_views(rseq),
            aligned(row_views(self.output@), row_views(self.corpus@), self.pos as int),
    {
        assert(self.output@.subrange(0, old_out.len() as int) =~= old_out);
        assert(self.output@.subrange(old_out.len() as int, self.output@.len() as int) =~= rseq);
        assert(row_views(self.output@.subrange(prev.pos as int, self.pos as int)) == row_views(
            rseq,
        ));
        let co = row_views(self.corpus@);
        let no = row_views(self.output@);
        assert forall|i: int|
            0 <= i < self.pos implies (#[trigger] no[i]).id == co[i].id && no[i].speaker
            == co[i].speaker && no[i].original == Some(co[i].text) by {
            assert(no[i] == self.output@[i]@);
            if i < old_out.len() {
                assert(self.output@[i] == old_out[i]);
                assert(row_views(prev.output@)[i] == old_out[i]@);
            } else {
                let j = i - old_out.len();
                assert(self.output@[i] == rseq[j]);
                assert(focus[j] == co[prev.pos + j]);
            }
        }
    }

    /// The finished pass: exactly one output row per corpus row, in
    /// corpus order, each keeping its row's identity and carrying the
    /// input text in `original`.
    pub fn into_output(self) -> (out: Vec<Row>)
        requires
            self.wf(),
            self.phase is Done,
        ensures
            out == self.output,
            out@.len() == self.corpus@.len(),
            aligned(row_views(out@), row_views(self.corpus@), self.corpus@.len() as int),
    {
        self.output
    }
}

/// A parse result's models: what the spec-level parser must have said
/// when the executable parser returned this.
pub open spec fn result_models(r: Result<Vec<Row>, ParseError>) -> Result<Seq<RowModel>, ParseError> {
    match r {
        Ok(v) => Ok(row_views(v@)),
        Err(e) => Err(e),
    }
}

/// Copies of `v[from..to]`.
pub fn sub_rows(v: &Vec<Row>, from: usize, to: usize) -> (r: Vec<Row>)
    requires
        from <= to <= v@.len(),
    ensures
        r@.len() == to - from,
        row_views(r@) == row_views(v@).subrange(from as int, to as int),
{
    let mut r: Vec<Row> = Vec::new();
    proof {
        assert(row_views(r@) =~= row_views(v@).subrange(from as int, from as int));
    }
    let mut i: usize = from;
    while i < to
        invariant
            from <= i <= to <= v@.len(),
            r@.len() == i - from,
            row_views(r@) == row_views(v@).subrange(from as int, i as int),
        decreases to - i,
    {
        r.push(v[i].duplicate());
        i += 1;
        proof {
            assert(row_views(r@) =~= row_views(v@).subrange(from as int, i as int));
        }
    }
    r
}

/// The placeholder rows for a given-up batch, one per focus row.
fn placeholder_rows(focus: &Vec<Row>) -> (r: Vec<Row>)
    ensures
        r@.len() == focus@.len(),
        row_views(r@) == row_views(focus@).map_values(|e: RowModel| placeholder_model(e)),
{
    let ghost goal = row_views(focus@).map_values(|e: RowModel| placeholder_model(e));
    let mut r: Vec<Row> = Vec::new();
    proof {
        assert(row_views(r@) =~= goal.take(0));
    }
    let mut i: usize = 0;
    while i < focus.len()
        invariant
            0 <= i <= focus@.len(),
            goal == row_views(focus@).map_values(|e: RowModel| placeholder_model(e)),
            goal.len() == focus@.len(),
            r@.len() == i,
            row_views(r@) == goal.take(i as int),
        decreases focus@.len() - i,
    {
        let mut remark: Vec<char> = Vec::new();
        push_str(&mut remark, "AI ERROR. GIVEN UP.");
        proof {
            assert(remark@ =~= giveup_mark());
        }
        let row = Row {
            id: copy_chars(&focus[i].id),
            speaker: copy_chars(&focus[i].speaker),
            text: Vec::new(),
            original: Some(copy_chars(&focus[i].text)),
            original_back: None,
            remarks: Some(remark),
        };
        proof {
            assert(row@ == placeholder_model(focus@[i as int]@));
        }
        r.push(row);
        i += 1;
        proof {
            assert(row_views(r@) =~= goal.take(i as int));
        }
    }
    proof {
        assert(goal.take(focus@.len() as int) =~= goal);
    }
    r
}

/// The block appended to the error log for one failed parse attempt:
/// the raw offending reply and the exact prompt that produced it,
/// separated by fixed marker lines.
pub open spec fn spec_error_log_entry(response: Seq<char>, prompt: Seq<char>) -> Seq<char> {
    "# ERROR LOG Invalid response:\n"@ + "==============================\n"@ + response + "\n"@
        + "==============================\n"@ + "# ERROR LOG Original Prompt:\n"@
        + "==============================\n"@ + prompt + "\n"@ + "==============================\n"@
}

/// Renders the error-log block for one failed attempt.
pub fn error_log_entry(response: &Vec<char>, prompt: &Vec<char>) -> (r: Vec<char>)
    ensures
        r@ == spec_error_log_entry(response@, prompt@),
{
    let mut r: Vec<char> = Vec::new();
    push_str(&mut r, "# ERROR LOG Invalid response:\n");
    push_str(&mut r, "==============================\n");
    push_chars(&mut r, response);
    push_str(&mut r, "\n");
    push_str(&mut r, "==============================\n");
    push_str(&mut r, "# ERROR LOG Original Prompt:\n");
    push_str(&mut r, "==============================\n");
    push_chars(&mut r, prompt);
    push_str(&mut r, "\n");
    push_str(&mut r, "==============================\n");
    proof {
        assert(r@ =~= spec_error_log_entry(response@, prompt@));
    }
    r
}

} // verus!
