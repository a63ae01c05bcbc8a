use script_archive::block::{Block, Data, Item, ReferenceScript, Speaker};
use script_archive::classify::{merge_block, MergeError};
use script_archive::parse::{index_value, is_block_start, is_index_token, parse_archive, ParseError};
use script_archive::reconcile::{merge_speakers, reference_targets, ReconcileError};
use script_archive::render::to_markdown;
use script_archive::text::is_story_block;
use script_archive::translate::{translate_speakers, TranslateError};
use script_archive::block::BlockUnmerged;

fn text_item(s: &str) -> Item {
    Item::Script(s.to_string())
}

fn raw(name: &str, items: Vec<Item>) -> BlockUnmerged {
    BlockUnmerged { name: name.to_string(), id: 7, items }
}

fn stream(magic: u32, parts: &[&[u8]]) -> Vec<u8> {
    let mut out = magic.to_le_bytes().to_vec();
    for p in parts {
        out.extend_from_slice(p);
    }
    out
}

#[test]
fn classify_all_text_is_list_in_order() {
    let b = raw("foo", vec![text_item("a"), text_item("b"), text_item("c"), text_item("d")]);
    let block = merge_block(b).unwrap();
    match &block.data {
        Data::List(l) => {
            assert_eq!(l.len(), 4);
            assert_eq!(l[0], "a");
            assert_eq!(l[1], "b");
            assert_eq!(l[2], "c");
            assert_eq!(l[3], "d");
        }
        _ => panic!("expected a list"),
    }
    assert_eq!(block.name, "foo");
}

#[test]
fn classify_map_name_pairs_items() {
    let b = raw("[name2]", vec![text_item("a"), text_item("b"), text_item("c"), text_item("d")]);
    let block = merge_block(b).unwrap();
    match &block.data {
        Data::TextMap(m) => {
            assert_eq!(m.len(), 2);
            assert_eq!(m[0], ("a".to_string(), "b".to_string()));
            assert_eq!(m[1], ("c".to_string(), "d".to_string()));
        }
        _ => panic!("expected a map"),
    }
}

#[test]
fn classify_map_odd_items_fails() {
    let b = raw("[name2]", vec![text_item("a"), text_item("b"), text_item("c")]);
    assert_eq!(merge_block(b).unwrap_err(), MergeError::OddMapItems);
}

#[test]
fn classify_dialogue_pairs() {
    let b = raw(
        "ac_intro",
        vec![Item::Index(0), text_item("Hello"), Item::Index(1), text_item("Bye")],
    );
    let block = merge_block(b).unwrap();
    match &block.data {
        Data::Scripts(s) => {
            assert_eq!(s.len(), 2);
            assert_eq!(s[0].index, Some(0));
            assert_eq!(s[0].text, "Hello");
            assert!(s[0].speaker.is_none());
            assert_eq!(s[1].index, Some(1));
            assert_eq!(s[1].text, "Bye");
            assert!(s[1].speaker.is_none());
        }
        _ => panic!("expected dialogue"),
    }
}

#[test]
fn classify_bad_pair_fails() {
    let b = raw("ac_x", vec![Item::Index(0), Item::Index(1), text_item("a"), text_item("b")]);
    assert_eq!(merge_block(b).unwrap_err(), MergeError::MismatchedPair);
}

#[test]
fn classify_unpaired_item_fails() {
    let b = raw("ac_x", vec![Item::Index(0), text_item("a"), Item::Index(1)]);
    assert_eq!(merge_block(b).unwrap_err(), MergeError::UnpairedItem);
}

#[test]
fn into_content_and_accessors() {
    assert_eq!(Item::Script("x".to_string()).into_content(), Some("x".to_string()));
    assert_eq!(Item::Index(3).into_content(), None);
    let list = Data::List(vec!["a".to_string()]);
    assert!(list.as_list().is_some());
    assert!(list.as_map().is_none());
    let map = Data::TextMap(vec![("k".to_string(), "v".to_string())]);
    assert!(map.as_map().is_some());
    assert!(map.as_list().is_none());
    let mut scripts = Data::Scripts(vec![]);
    assert!(scripts.as_scripts_mut().is_some());
    let mut list2 = Data::List(vec![]);
    assert!(list2.as_scripts_mut().is_none());
}

#[test]
fn story_block_rule() {
    assert!(is_story_block("ac_intro"));
    assert!(is_story_block("AC_INTRO"));
    assert!(is_story_block("Ac2_day1"));
    assert!(is_story_block("ac2_"));
    assert!(!is_story_block("ac2x"));
    assert!(!is_story_block("ab_x"));
    assert!(!is_story_block("ac"));
    assert!(!is_story_block(""));
}

#[test]
fn block_start_rule() {
    assert!(is_block_start("[selection]"));
    assert!(is_block_start("_sys"));
    assert!(is_block_start("ac_1"));
    assert!(!is_block_start("hello"));
    assert!(!is_block_start(""));
}

#[test]
fn index_token_rule() {
    assert!(is_index_token("000000"));
    assert!(is_index_token("123456"));
    assert!(!is_index_token("12345"));
    assert!(!is_index_token("1234567"));
    assert!(!is_index_token("12345a"));
    assert_eq!(index_value("000123"), 123);
    assert_eq!(index_value("999999"), 999999);
}

#[test]
fn parse_simple_archive() {
    let input = stream(
        0xE,
        &[
            b"ac_1\0",
            &9u32.to_le_bytes(),
            b"000000\0",
            b"Hello\0",
            b"000001\0",
            b"Bye\0",
        ],
    );
    let blocks = parse_archive(&input).unwrap();
    assert_eq!(blocks.len(), 1);
    assert_eq!(blocks[0].name, "ac_1");
    assert_eq!(blocks[0].id, 9);
    assert_eq!(blocks[0].items.len(), 4);
    assert!(matches!(blocks[0].items[0], Item::Index(0)));
    assert!(matches!(&blocks[0].items[1], Item::Script(s) if s == "Hello"));
}

#[test]
fn parse_keeps_non_ascii_text() {
    let input = stream(0xA, &[b"[cfg]\0", &1u32.to_le_bytes(), "héllo日本\0".as_bytes()]);
    let blocks = parse_archive(&input).unwrap();
    assert!(matches!(&blocks[0].items[0], Item::Script(s) if s == "héllo日本"));
}

#[test]
fn parse_index_gap_aborts() {
    let input = stream(
        0xA,
        &[
            b"ac_1\0",
            &0u32.to_le_bytes(),
            b"000000\0",
            b"A\0",
            b"000002\0",
            b"B\0",
        ],
    );
    assert_eq!(parse_archive(&input).unwrap_err(), ParseError::IndexMismatch);
}

#[test]
fn parse_counter_resets_per_block() {
    let input = stream(
        0xA,
        &[
            b"ac_1\0",
            &0u32.to_le_bytes(),
            b"000000\0",
            b"A\0",
            b"ac_2\0",
            &1u32.to_le_bytes(),
            b"000000\0",
            b"B\0",
        ],
    );
    let blocks = parse_archive(&input).unwrap();
    assert_eq!(blocks.len(), 2);
    assert!(matches!(blocks[1].items[0], Item::Index(0)));
}

#[test]
fn parse_bad_magic_aborts() {
    let input = stream(0xB, &[b"x\0"]);
    assert_eq!(parse_archive(&input).unwrap_err(), ParseError::BadMagic);
}

#[test]
fn parse_short_input_aborts() {
    assert_eq!(parse_archive(&vec![0xA, 0, 0]).unwrap_err(), ParseError::Truncated);
}

#[test]
fn parse_missing_separator_aborts() {
    let input = stream(0xA, &[b"[a]\0", &0u32.to_le_bytes(), b"text-without-nul"]);
    assert_eq!(parse_archive(&input).unwrap_err(), ParseError::ExpectedSeparator);
}

#[test]
fn parse_invalid_utf8_before_separator_aborts() {
    let input = stream(0xA, &[b"[a]\0", &0u32.to_le_bytes(), &[0xFF, 0xFE, 0x00]]);
    assert_eq!(parse_archive(&input).unwrap_err(), ParseError::ExpectedSeparator);
}

#[test]
fn parse_item_before_block_aborts() {
    let input = stream(0xA, &[b"stray\0"]);
    assert_eq!(parse_archive(&input).unwrap_err(), ParseError::NoOpenBlock);
}

#[test]
fn parse_truncated_id_aborts() {
    let input = stream(0xA, &[b"[a]\0", &[1, 2]]);
    assert_eq!(parse_archive(&input).unwrap_err(), ParseError::Truncated);
}

fn dialogue_block(name: &str, texts: &[&str]) -> Block {
    let mut items = vec![];
    for (i, t) in texts.iter().enumerate() {
        items.push(Item::Index(i));
        items.push(text_item(t));
    }
    merge_block(raw(name, items)).unwrap()
}

fn selection_block(entries: &[&str]) -> Block {
    merge_block(raw("[selection]", entries.iter().map(|e| text_item(e)).collect())).unwrap()
}

fn reference(entries: &[(Option<&str>, &str)]) -> Vec<ReferenceScript> {
    entries
        .iter()
        .map(|(n, m)| ReferenceScript {
            name: n.map(|s| s.to_string()),
            message: m.to_string(),
        })
        .collect()
}

#[test]
fn reconcile_filters_and_assigns_positionally() {
    let blocks = vec![selection_block(&["skip-me"]), dialogue_block("ac_1", &["x", "y"])];
    let refs = vec![(
        "ac_1".to_string(),
        reference(&[(Some("Alice"), "x"), (None, "skip-me"), (Some("Bob"), "y")]),
    )];
    let out = merge_speakers(blocks, &refs).unwrap();
    assert!(out.selection_found);
    match &out.blocks[1].data {
        Data::Scripts(s) => {
            assert!(matches!(&s[0].speaker, Some(Speaker::Named(n)) if n == "Alice"));
            assert!(matches!(&s[1].speaker, Some(Speaker::Named(n)) if n == "Bob"));
        }
        _ => panic!("expected dialogue"),
    }
}

#[test]
fn reconcile_length_mismatch_aborts() {
    let blocks = vec![
        selection_block(&["skip-me"]),
        dialogue_block("ac_1", &["x", "y", "z"]),
    ];
    let refs = vec![(
        "ac_1".to_string(),
        reference(&[(Some("Alice"), "x"), (None, "skip-me"), (Some("Bob"), "y")]),
    )];
    assert_eq!(merge_speakers(blocks, &refs).unwrap_err(), ReconcileError::LengthMismatch);
}

#[test]
fn reconcile_anonymous_entry_gives_unnamed_speaker() {
    let blocks = vec![selection_block(&[]), dialogue_block("ac_1", &["x"])];
    let refs = vec![("ac_1".to_string(), reference(&[(None, "x")]))];
    let out = merge_speakers(blocks, &refs).unwrap();
    match &out.blocks[1].data {
        Data::Scripts(s) => assert!(matches!(&s[0].speaker, Some(Speaker::NoName))),
        _ => panic!("expected dialogue"),
    }
}

#[test]
fn reconcile_without_selection_changes_nothing() {
    let blocks = vec![dialogue_block("ac_1", &["x"])];
    let refs = vec![("ac_1".to_string(), reference(&[(Some("Alice"), "x")]))];
    let out = merge_speakers(blocks, &refs).unwrap();
    assert!(!out.selection_found);
    match &out.blocks[0].data {
        Data::Scripts(s) => assert!(s[0].speaker.is_none()),
        _ => panic!("expected dialogue"),
    }
}

#[test]
fn reconcile_without_reference_leaves_block_speakers_unset() {
    let list = merge_block(raw("other", vec![text_item("keep")])).unwrap();
    let blocks = vec![selection_block(&["s"]), list, dialogue_block("ac_1", &["x"])];
    let out = merge_speakers(blocks, &vec![]).unwrap();
    match &out.blocks[2].data {
        Data::Scripts(s) => assert!(s[0].speaker.is_none()),
        _ => panic!("expected dialogue"),
    }
    match &out.blocks[1].data {
        Data::List(l) => assert_eq!(l[0], "keep"),
        _ => panic!("expected list"),
    }
}

#[test]
fn reconcile_selection_not_list_aborts() {
    let sel = dialogue_block("[selection]", &["x"]);
    let blocks = vec![sel];
    assert_eq!(merge_speakers(blocks, &vec![]).unwrap_err(), ReconcileError::SelectionNotList);
}

#[test]
fn reconcile_skips_non_story_dialogue() {
    let blocks = vec![selection_block(&[]), dialogue_block("_other", &["x"])];
    let refs = vec![("_other".to_string(), reference(&[(Some("Alice"), "x")]))];
    let out = merge_speakers(blocks, &refs).unwrap();
    match &out.blocks[1].data {
        Data::Scripts(s) => assert!(s[0].speaker.is_none()),
        _ => panic!("expected dialogue"),
    }
}

#[test]
fn reference_targets_lists_story_dialogue_blocks() {
    let blocks = vec![
        selection_block(&[]),
        dialogue_block("ac_1", &["x"]),
        merge_block(raw("other", vec![text_item("t")])).unwrap(),
        dialogue_block("AC2_9", &["y"]),
    ];
    assert_eq!(reference_targets(&blocks), vec!["ac_1".to_string(), "AC2_9".to_string()]);
}

fn with_speaker(mut b: Block, names: &[Option<&str>]) -> Block {
    if let Data::Scripts(s) = &mut b.data {
        for (i, n) in names.iter().enumerate() {
            s[i].speaker = n.map(|x| Speaker::Named(x.to_string()));
        }
    }
    b
}

fn mapping_block(pairs: &[(&str, &str)]) -> Block {
    let mut items = vec![];
    for (k, v) in pairs {
        items.push(text_item(k));
        items.push(text_item(v));
    }
    merge_block(raw("[name2]", items)).unwrap()
}

#[test]
fn translate_rewrites_known_names_and_reports_unknown_once() {
    let d = with_speaker(
        dialogue_block("ac_1", &["a", "b", "c"]),
        &[Some("al"), Some("zed"), Some("zed")],
    );
    let blocks = vec![mapping_block(&[("al", "Alice")]), d];
    let out = translate_speakers(blocks).unwrap();
    assert!(out.mapping_found);
    match &out.blocks[1].data {
        Data::Scripts(s) => {
            assert!(matches!(&s[0].speaker, Some(Speaker::Named(n)) if n == "Alice"));
            assert!(matches!(&s[1].speaker, Some(Speaker::Named(n)) if n == "zed"));
        }
        _ => panic!("expected dialogue"),
    }
    assert_eq!(out.untranslated, vec!["zed".to_string()]);
}

#[test]
fn translate_without_mapping_changes_nothing() {
    let d = with_speaker(dialogue_block("ac_1", &["a"]), &[Some("al")]);
    let out = translate_speakers(vec![d]).unwrap();
    assert!(!out.mapping_found);
    assert!(out.untranslated.is_empty());
    match &out.blocks[0].data {
        Data::Scripts(s) => {
            assert!(matches!(&s[0].speaker, Some(Speaker::Named(n)) if n == "al"))
        }
        _ => panic!("expected dialogue"),
    }
}

#[test]
fn translate_mapping_not_map_aborts() {
    let bad = dialogue_block("[name2]", &["x"]);
    assert_eq!(translate_speakers(vec![bad]).unwrap_err(), TranslateError::MappingNotMap);
}

#[test]
fn translate_twice_is_stable_with_disjoint_mapping() {
    let d = with_speaker(dialogue_block("ac_1", &["a", "b"]), &[Some("al"), Some("bo")]);
    let blocks = vec![mapping_block(&[("al", "Alice"), ("bo", "Bob")]), d];
    let once = translate_speakers(blocks).unwrap();
    let twice = translate_speakers(once.blocks).unwrap();
    match &twice.blocks[1].data {
        Data::Scripts(s) => {
            assert!(matches!(&s[0].speaker, Some(Speaker::Named(n)) if n == "Alice"));
            assert!(matches!(&s[1].speaker, Some(Speaker::Named(n)) if n == "Bob"));
        }
        _ => panic!("expected dialogue"),
    }
}

#[test]
fn translate_duplicate_key_last_wins() {
    let d = with_speaker(dialogue_block("ac_1", &["a"]), &[Some("al")]);
    let blocks = vec![mapping_block(&[("al", "Old"), ("al", "New")]), d];
    let out = translate_speakers(blocks).unwrap();
    match &out.blocks[1].data {
        Data::Scripts(s) => {
            assert!(matches!(&s[0].speaker, Some(Speaker::Named(n)) if n == "New"))
        }
        _ => panic!("expected dialogue"),
    }
}

#[test]
fn markdown_renders_only_dialogue_blocks() {
    let list = merge_block(raw("listy", vec![text_item("l")])).unwrap();
    let map = mapping_block(&[("k", "v")]);
    let d = with_speaker(dialogue_block("ac_1", &["Hello", "Bye"]), &[Some("Alice"), None]);
    let md = to_markdown(&vec![list, map, d]);
    assert_eq!(md, "# ac_1\n\nAlice\nHello\n\nBye\n\n");
}

#[test]
fn markdown_of_no_dialogue_is_empty() {
    let list = merge_block(raw("listy", vec![text_item("l")])).unwrap();
    assert_eq!(to_markdown(&vec![list]), "");
}

#[test]
fn markdown_skips_name_line_for_anonymous() {
    let mut d = dialogue_block("ac_1", &["Hi"]);
    if let Data::Scripts(s) = &mut d.data {
        s[0].speaker = Some(Speaker::NoName);
    }
    assert_eq!(to_markdown(&vec![d]), "# ac_1\n\nHi\n\n");
}

#[test]
fn full_pipeline_end_to_end() {
    let input = stream(
        0xA,
        &[
            b"[name2]\0",
            &1u32.to_le_bytes(),
            b"al\0",
            b"Alice\0",
            b"[selection]\0",
            &2u32.to_le_bytes(),
            b"skip\0",
            b"ac_day\0",
            &3u32.to_le_bytes(),
            b"000000\0",
            b"Hello\0",
            b"000001\0",
            b"Bye\0",
        ],
    );
    let raw_blocks = parse_archive(&input).unwrap();
    let mut blocks = vec![];
    for rb in raw_blocks {
        blocks.push(merge_block(rb).unwrap());
    }
    assert_eq!(reference_targets(&blocks), vec!["ac_day".to_string()]);
    let refs = vec![(
        "ac_day".to_string(),
        reference(&[(Some("al"), "Hello"), (None, "skip"), (None, "Bye")]),
    )];
    let rec = merge_speakers(blocks, &refs).unwrap();
    let tr = translate_speakers(rec.blocks).unwrap();
    assert!(tr.untranslated.is_empty());
    let md = to_markdown(&tr.blocks);
    assert_eq!(md, "# ac_day\n\nAlice\nHello\n\nBye\n\n");
}
