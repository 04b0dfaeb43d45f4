//! Parser and prompt-builder behavior on concrete replies.

use batch_translate::errors::ParseError;
use batch_translate::parse::{process_ai_response, process_ai_response_impl};
use batch_translate::prompt::{generate_blender_prompt, generate_keyed_prompt};
use batch_translate::rows::{LangSet, Row};

fn cs(s: &str) -> Vec<char> {
    s.chars().collect()
}

fn st(v: &Vec<char>) -> String {
    v.iter().collect()
}

fn row(id: &str, speaker: &str, text: &str) -> Row {
    Row {
        id: cs(id),
        speaker: cs(speaker),
        text: cs(text),
        original: None,
        original_back: None,
        remarks: None,
    }
}

#[test]
fn remarks_split() {
    let entries = vec![row("d1", "Ana", "hello")];
    let response = cs("{SPK}Ana{SPK}\n  hola  {RMK} tone: informal ");
    let out = process_ai_response(&response, &entries).unwrap();
    assert_eq!(out.len(), 1);
    assert_eq!(st(&out[0].text), "hola");
    assert_eq!(st(out[0].remarks.as_ref().unwrap()), "tone: informal");
    assert_eq!(st(out[0].original.as_ref().unwrap()), "hello");
    assert_eq!(st(&out[0].id), "d1");
    assert_eq!(st(&out[0].speaker), "Ana");
}

#[test]
fn no_remarks_marker_gives_empty_remarks() {
    let entries = vec![row("d1", "Ana", "hello")];
    let response = cs("{SPK}Ana{SPK}\n hola \n");
    let out = process_ai_response(&response, &entries).unwrap();
    assert_eq!(st(&out[0].text), "hola");
    assert_eq!(st(out[0].remarks.as_ref().unwrap()), "");
}

#[test]
fn unicode_whitespace_is_trimmed() {
    let entries = vec![row("d1", "Ana", "a")];
    let response = cs("{SPK}Ana{SPK}\n\u{A0}\u{2003} hola \u{3000}{RMK}\u{2028} ok \u{85}");
    let out = process_ai_response(&response, &entries).unwrap();
    assert_eq!(st(&out[0].text), "hola");
    assert_eq!(st(out[0].remarks.as_ref().unwrap()), "ok");
}

#[test]
fn empty_response_fails_with_rows() {
    let entries = vec![row("d1", "Ana", "a"), row("d2", "Bob", "b")];
    let r = process_ai_response(&cs(""), &entries);
    assert_eq!(r.unwrap_err(), ParseError::EmptyResponse);
}

#[test]
fn empty_response_fails_with_zero_rows() {
    let entries: Vec<Row> = Vec::new();
    let r = process_ai_response(&cs(""), &entries);
    assert_eq!(r.unwrap_err(), ParseError::EmptyResponse);
    let r2 = process_ai_response_impl(&cs(""), &entries);
    assert_eq!(r2.unwrap_err(), ParseError::EmptyResponse);
}

#[test]
fn missing_first_anchor() {
    let entries = vec![row("d1", "Ana", "a")];
    let r = process_ai_response(&cs("no anchors anywhere"), &entries);
    assert_eq!(r.unwrap_err(), ParseError::AnchorNotFound(0));
}

#[test]
fn missing_middle_anchor_is_reported_not_skipped() {
    let entries = vec![row("d1", "Ana", "a"), row("d2", "Bob", "b")];
    let response = cs("{SPK}Ana{SPK}\nhola\n{SPK}Carl{SPK}\nx\n");
    let r = process_ai_response(&response, &entries);
    assert_eq!(r.unwrap_err(), ParseError::AnchorNotFound(1));
}

#[test]
fn truncated_response() {
    let entries = vec![row("d1", "Ana", "a"), row("d2", "Bob", "b")];
    let response = cs("{SPK}Ana{SPK}\nhi");
    let r = process_ai_response(&response, &entries);
    assert_eq!(r.unwrap_err(), ParseError::Truncated);
}

#[test]
fn round_trip_two_rows() {
    let entries = vec![row("d1", "Ana", "hello"), row("d2", "Bob", "bye")];
    let response = cs("{SPK}Ana{SPK}\nhola\n{SPK}Bob{SPK}\n adios \n");
    let out = process_ai_response(&response, &entries).unwrap();
    assert_eq!(out.len(), 2);
    assert_eq!(st(&out[0].text), "hola");
    assert_eq!(st(&out[1].text), "adios");
    assert_eq!(st(out[1].original.as_ref().unwrap()), "bye");
}

#[test]
fn fence_ends_last_segment() {
    let entries = vec![row("d1", "Ana", "a")];
    let response = cs("{SPK}Ana{SPK}\nhola\n```\nchatter after the fence");
    let out = process_ai_response(&response, &entries).unwrap();
    assert_eq!(st(&out[0].text), "hola");
}

#[test]
fn prose_before_first_anchor_is_ignored() {
    let entries = vec![row("d1", "Ana", "a")];
    let response = cs("Sure! Here is the translation:\n{SPK}Ana{SPK}\nhola\n");
    let out = process_ai_response(&response, &entries).unwrap();
    assert_eq!(st(&out[0].text), "hola");
}

#[test]
fn keyed_round_trip() {
    let entries = vec![row("key1", "", "hello"), row("key2", "", "bye")];
    let response = cs("# key1\nhola\n# key2\nadios");
    let out = process_ai_response_impl(&response, &entries).unwrap();
    assert_eq!(out.len(), 2);
    assert_eq!(st(&out[0].text), "hola");
    assert_eq!(st(&out[1].text), "adios");
    assert_eq!(out[0].remarks, None);
}

#[test]
fn keyed_missing_next_anchor_is_strict() {
    let entries = vec![row("key1", "", "a"), row("key2", "", "b")];
    let response = cs("# key1\nhola and then the reply just ends");
    let r = process_ai_response_impl(&response, &entries);
    assert_eq!(r.unwrap_err(), ParseError::AnchorNotFound(1));
}

#[test]
fn keyed_last_row_takes_rest_of_text() {
    let entries = vec![row("key1", "", "a")];
    let response = cs("# key1\nhola\nsegunda linea  ");
    let out = process_ai_response_impl(&response, &entries).unwrap();
    assert_eq!(st(&out[0].text), "hola\nsegunda linea");
}

#[test]
fn speaker_prompt_exact_rendering() {
    let pre = vec![row("d0", "Nar", "Before text")];
    let focus = vec![row("d1", "Ana", "Hello")];
    let post = vec![row("d2", "Nar", "After text")];
    let p = generate_blender_prompt(&pre, &focus, &post, &cs("Spanish"));
    let expected = "Translate to Spanish\n\
        # CONTEXT PREVIOUS BEGIN\n\
        ## Nar\nBefore text\n\
        # CONTEXT PREVIOUS END\n\
        # TEXT BEGIN\n\
        {SPK}Ana{SPK}\nHello\n\
        # TEXT END\n\
        # CONTEXT AFTER BEGIN\n\
        ## Nar\nAfter text\n\
        # CONTEXT AFTER END\n";
    assert_eq!(st(&p), expected);
}

#[test]
fn speaker_prompt_round_trips_through_parser() {
    // A reply that reproduces exactly the prompt's own TEXT section
    // parses back into the injected texts.
    let focus = vec![row("d1", "Ana", "uno"), row("d2", "Bob", "dos")];
    let p = generate_blender_prompt(&Vec::new(), &focus, &Vec::new(), &cs("Spanish"));
    let rendered = st(&p);
    let begin = rendered.find("# TEXT BEGIN\n").unwrap() + "# TEXT BEGIN\n".len();
    let end = rendered.find("# TEXT END\n").unwrap();
    let reply: Vec<char> = rendered[begin..end].chars().collect();
    let out = process_ai_response(&reply, &focus).unwrap();
    assert_eq!(out.len(), 2);
    assert_eq!(st(&out[0].text), "uno");
    assert_eq!(st(&out[1].text), "dos");
}

#[test]
fn keyed_prompt_with_context() {
    let focus = vec![row("key1", "", "Hello")];
    let aux = vec![LangSet {
        lang: cs("German"),
        entries: vec![row("key1", "", "Hallo")],
    }];
    let p = generate_keyed_prompt(&cs("English"), &cs("Spanish"), &focus, &aux, 0);
    let expected = String::from("Translate ") + "from English to: Spanish\n\n\
        # key1\nHello\n\n\
        ## Additional Context\n\n\
        ### German\nHallo";
    assert_eq!(st(&p), expected);
}

#[test]
fn keyed_prompt_omits_empty_context_block() {
    let focus = vec![row("key1", "", "Hello"), row("key2", "", "Bye")];
    let aux = vec![
        LangSet {
            lang: cs("German"),
            entries: vec![row("key1", "", ""), row("key2", "", "Tschuess")],
        },
        LangSet {
            lang: cs("French"),
            entries: vec![row("key1", "", ""), row("key2", "", "")],
        },
    ];
    let p = generate_keyed_prompt(&cs("English"), &cs("Spanish"), &focus, &aux, 0);
    let expected = String::from("Translate ") + "from English to: Spanish\n\n\
        # key1\nHello\n\n\
        # key2\nBye\n\n\
        ## Additional Context\n\n\
        ### German\nTschuess";
    assert_eq!(st(&p), expected);
    assert!(!st(&p)[..expected.find("# key2").unwrap()].contains("Additional Context"));
}

#[test]
fn keyed_prompt_no_aux_tracks() {
    let focus = vec![row("key1", "", "Hello")];
    let aux: Vec<LangSet> = Vec::new();
    let p = generate_keyed_prompt(&cs("English"), &cs("Spanish"), &focus, &aux, 0);
    let expected = String::from("Translate ") + "from English to: Spanish\n\n# key1\nHello";
    assert_eq!(st(&p), expected);
}

#[test]
fn duplicate_speaker_prefix_can_missegment() {
    // The documented structural limitation: anchors are located by
    // substring search, so a speaker repeated inside an earlier segment
    // can shift where a later row's anchor is found.
    let entries = vec![row("d1", "Ana", "a"), row("d2", "Ana", "b")];
    let response = cs("{SPK}Ana{SPK}\nuno\n{SPK}Ana{SPK}\ndos\n");
    let out = process_ai_response(&response, &entries).unwrap();
    assert_eq!(st(&out[0].text), "uno");
    assert_eq!(st(&out[1].text), "dos");
}
