//! Driving whole passes: batching, context windows, retries, give-up
//! policies, and the helpers around a pass.

use batch_translate::errors::{Error, ParseError};
use batch_translate::rows::{blank_rows, merge_back, normalize_cell, LangSet, Row};
use batch_translate::run::{batch_window, error_log_entry, Mode, Phase, Step, TranslateRun};

fn chars(s: &str) -> Vec<char> {
    s.chars().collect()
}

fn text_of(v: &Vec<char>) -> String {
    v.iter().collect()
}

fn mk_row(id: &str, speaker: &str, text: &str) -> Row {
    Row {
        id: chars(id),
        speaker: chars(speaker),
        text: chars(text),
        original: None,
        original_back: None,
        remarks: None,
    }
}

fn corpus_of(n: usize) -> Vec<Row> {
    let mut v = Vec::new();
    for i in 0..n {
        v.push(mk_row(
            &format!("d{}", i),
            &format!("spk{}", i),
            &format!("line {}", i),
        ));
    }
    v
}

/// A reply in exactly the format the current batch's prompt asks for.
fn good_reply(run: &TranslateRun) -> Vec<char> {
    let len = run.corpus.len();
    let to = (run.pos + run.batch_size).min(len);
    let mut s = String::new();
    for i in run.pos..to {
        s.push_str(&format!(
            "{{SPK}}{}{{SPK}}\ntranslated {}\n",
            text_of(&run.corpus[i].speaker),
            i
        ));
    }
    s.chars().collect()
}

#[test]
fn full_run_preserves_length_and_order() {
    let corpus = corpus_of(5);
    let mut run = TranslateRun::new(
        corpus,
        chars("Spanish"),
        Mode::Speaker {
            pre_ctx: 2,
            post_ctx: 2,
        },
        2,
        3,
        false,
    );
    let mut prompts = 0;
    while run.phase == Phase::Working {
        let _prompt = run.prompt();
        prompts += 1;
        let reply = good_reply(&run);
        let step = run.feed(&reply);
        assert_eq!(step, Step::Advanced);
    }
    assert_eq!(prompts, 3);
    let out = run.into_output();
    assert_eq!(out.len(), 5);
    for (i, r) in out.iter().enumerate() {
        assert_eq!(text_of(&r.id), format!("d{}", i));
        assert_eq!(text_of(&r.speaker), format!("spk{}", i));
        assert_eq!(text_of(&r.text), format!("translated {}", i));
        assert_eq!(text_of(r.original.as_ref().unwrap()), format!("line {}", i));
    }
}

#[test]
fn giveup_produces_placeholders_and_full_length_output() {
    let corpus = corpus_of(3);
    let mut run = TranslateRun::new(
        corpus,
        chars("Spanish"),
        Mode::Speaker {
            pre_ctx: 1,
            post_ctx: 1,
        },
        2,
        3,
        false,
    );
    // First batch: three malformed replies exhaust the budget.
    let garbage = chars("no anchors here");
    assert!(matches!(run.feed(&garbage), Step::Retry(_)));
    assert!(matches!(run.feed(&garbage), Step::Retry(_)));
    assert!(matches!(run.feed(&garbage), Step::GaveUp(_)));
    assert_eq!(run.phase, Phase::Working);
    // Second batch parses fine.
    let reply = good_reply(&run);
    assert_eq!(run.feed(&reply), Step::Advanced);
    assert_eq!(run.phase, Phase::Done);
    let out = run.into_output();
    assert_eq!(out.len(), 3);
    assert_eq!(text_of(&out[0].text), "");
    assert_eq!(
        text_of(out[0].remarks.as_ref().unwrap()),
        "AI ERROR. GIVEN UP."
    );
    assert_eq!(text_of(&out[0].id), "d0");
    assert_eq!(text_of(&out[2].text), "translated 2");
}

#[test]
fn strict_run_aborts_on_exhaustion() {
    let corpus = corpus_of(2);
    let mut run = TranslateRun::new(
        corpus,
        chars("Spanish"),
        Mode::Speaker {
            pre_ctx: 0,
            post_ctx: 0,
        },
        2,
        2,
        true,
    );
    let garbage = chars("still no anchors");
    assert!(matches!(run.feed(&garbage), Step::Retry(_)));
    assert!(matches!(run.feed(&garbage), Step::Aborted(_)));
    assert_eq!(run.phase, Phase::Failed);
}

#[test]
fn timeout_as_empty_reply_joins_the_retry_path() {
    let corpus = corpus_of(1);
    let mut run = TranslateRun::new(
        corpus,
        chars("Spanish"),
        Mode::Speaker {
            pre_ctx: 0,
            post_ctx: 0,
        },
        1,
        2,
        false,
    );
    let step = run.feed(&chars(""));
    assert_eq!(step, Step::Retry(ParseError::EmptyResponse));
}

#[test]
fn retry_reissues_identical_prompt() {
    let corpus = corpus_of(2);
    let mut run = TranslateRun::new(
        corpus,
        chars("Spanish"),
        Mode::Speaker {
            pre_ctx: 1,
            post_ctx: 1,
        },
        2,
        5,
        false,
    );
    let first = run.prompt();
    run.feed(&chars("garbage"));
    let second = run.prompt();
    assert_eq!(text_of(&first), text_of(&second));
}

#[test]
fn context_window_clamps_at_boundaries() {
    // First batch: no previous context even though pre_ctx > 0.
    let w = batch_window(10, 0, 3, 2, 2);
    assert_eq!(w, (0, 3, 5));
    // Middle batch: both windows present.
    let w = batch_window(10, 3, 3, 2, 2);
    assert_eq!(w, (1, 6, 8));
    // Last batch: no following context even though post_ctx > 0.
    let w = batch_window(10, 9, 3, 2, 2);
    assert_eq!(w, (7, 10, 10));
}

#[test]
fn first_batch_prompt_has_empty_previous_context() {
    let corpus = corpus_of(4);
    let run = TranslateRun::new(
        corpus,
        chars("Spanish"),
        Mode::Speaker {
            pre_ctx: 2,
            post_ctx: 1,
        },
        2,
        3,
        false,
    );
    let p = text_of(&run.prompt());
    let expected = "Translate to Spanish\n\
        # CONTEXT PREVIOUS BEGIN\n\
        # CONTEXT PREVIOUS END\n\
        # TEXT BEGIN\n\
        {SPK}spk0{SPK}\nline 0\n\
        {SPK}spk1{SPK}\nline 1\n\
        # TEXT END\n\
        # CONTEXT AFTER BEGIN\n\
        ## spk2\nline 2\n\
        # CONTEXT AFTER END\n";
    assert_eq!(p, expected);
}

#[test]
fn keyed_run_with_aux_context() {
    let corpus = vec![mk_row("key1", "", "Hello"), mk_row("key2", "", "Bye")];
    let aux = vec![LangSet {
        lang: chars("German"),
        entries: vec![mk_row("key1", "", "Hallo"), mk_row("key2", "", "")],
    }];
    let mut run = TranslateRun::new(
        corpus,
        chars("Spanish"),
        Mode::Keyed {
            src_lang: chars("English"),
            aux,
        },
        2,
        9,
        false,
    );
    let p = text_of(&run.prompt());
    let expected = String::from("Translate ") + "from English to: Spanish\n\n\
        # key1\nHello\n\n\
        ## Additional Context\n\n\
        ### German\nHallo\n\n\
        # key2\nBye";
    assert_eq!(p, expected);
    let step = run.feed(&chars("# key1\nHola\n# key2\nAdios"));
    assert_eq!(step, Step::Advanced);
    let out = run.into_output();
    assert_eq!(out.len(), 2);
    assert_eq!(text_of(&out[0].text), "Hola");
    assert_eq!(text_of(&out[1].text), "Adios");
}

#[test]
fn keyed_giveup_also_degrades_to_placeholders() {
    let corpus = vec![mk_row("key1", "", "Hello")];
    let mut run = TranslateRun::new(
        corpus,
        chars("Spanish"),
        Mode::Keyed {
            src_lang: chars("English"),
            aux: Vec::new(),
        },
        1,
        2,
        false,
    );
    let garbage = chars("not a keyed reply");
    assert!(matches!(run.feed(&garbage), Step::Retry(_)));
    assert!(matches!(run.feed(&garbage), Step::GaveUp(_)));
    let out = run.into_output();
    assert_eq!(out.len(), 1);
    assert_eq!(text_of(&out[0].text), "");
    assert_eq!(
        text_of(out[0].remarks.as_ref().unwrap()),
        "AI ERROR. GIVEN UP."
    );
}

#[test]
fn empty_corpus_is_done_at_once() {
    let run = TranslateRun::new(
        Vec::new(),
        chars("Spanish"),
        Mode::Speaker {
            pre_ctx: 1,
            post_ctx: 1,
        },
        2,
        3,
        false,
    );
    assert_eq!(run.phase, Phase::Done);
    assert_eq!(run.into_output().len(), 0);
}

#[test]
fn merge_back_joins_passes() {
    let mut fwd = corpus_of(2);
    fwd[0].remarks = Some(chars("note"));
    let back = vec![mk_row("d0", "spk0", "back 0"), mk_row("d1", "spk1", "back 1")];
    let merged = merge_back(&fwd, &back);
    assert_eq!(merged.len(), 2);
    assert_eq!(text_of(&merged[0].text), "line 0");
    assert_eq!(text_of(merged[0].original_back.as_ref().unwrap()), "back 0");
    assert_eq!(text_of(merged[0].remarks.as_ref().unwrap()), "note");
    assert_eq!(text_of(merged[1].original_back.as_ref().unwrap()), "back 1");
}

#[test]
fn blank_rows_for_degraded_back_translation() {
    let rows = blank_rows(3);
    assert_eq!(rows.len(), 3);
    for r in &rows {
        assert_eq!(text_of(&r.text), "");
        assert_eq!(r.original_back, None);
        assert_eq!(r.remarks, None);
    }
}

#[test]
fn normalize_cell_drops_missing_marker() {
    assert_eq!(text_of(&normalize_cell(chars("#N/A"))), "");
    assert_eq!(text_of(&normalize_cell(chars(""))), "");
    assert_eq!(text_of(&normalize_cell(chars("Hallo"))), "Hallo");
    assert_eq!(text_of(&normalize_cell(chars("#N/B"))), "#N/B");
}

#[test]
fn error_log_block_format() {
    let block = error_log_entry(&chars("bad reply"), &chars("the prompt"));
    let expected = "# ERROR LOG Invalid response:\n\
        ==============================\n\
        bad reply\n\
        ==============================\n\
        # ERROR LOG Original Prompt:\n\
        ==============================\n\
        the prompt\n\
        ==============================\n";
    assert_eq!(text_of(&block), expected);
}

#[test]
fn parse_errors_collapse_at_the_retry_boundary() {
    assert_eq!(
        Error::from_parse(ParseError::EmptyResponse),
        Error::InvalidTranslation
    );
    assert_eq!(
        Error::from_parse(ParseError::AnchorNotFound(3)),
        Error::InvalidTranslation
    );
    assert_eq!(
        Error::from_parse(ParseError::Truncated),
        Error::InvalidTranslation
    );
    assert_eq!(Error::HttpStatus(503), Error::HttpStatus(503));
}
