use ns_emu_cheats_downloader::cheat_provider::{
    cheat_code, code_lines, name_without_brackets, name_without_delimiters, parse_cheat_file,
    skip_header_lines, Cheat, CheatMap,
};
use ns_emu_cheats_downloader::ui::cheat_manager::CheatManager;

fn cheat(name: &str, code: &[&str], checked: bool) -> Cheat {
    Cheat { name: name.to_string(), code: code.iter().map(|s| s.to_string()).collect(), checked }
}

#[test]
fn parse_cheat_file_reads_headers_and_code() {
    let content = "[Infinite HP]\n04000000 0 1\r\n\n  04000000 0 2  \n[Empty]\n\n[ Max Money ]\n08000000 1 1\n";
    let cheats = parse_cheat_file(content);
    assert_eq!(cheats.len(), 2);
    assert_eq!(cheats[0].name, "Infinite HP");
    assert_eq!(cheats[0].code, vec!["04000000 0 1", "04000000 0 2"]);
    assert!(!cheats[0].checked);
    assert_eq!(cheats[1].name, "Max Money");
    assert_eq!(cheats[1].code, vec!["08000000 1 1"]);
}

#[test]
fn parse_cheat_file_ignores_text_before_first_header() {
    let cheats = parse_cheat_file("preamble\nmore\n[A]\nx\n");
    assert_eq!(cheats.len(), 1);
    assert_eq!(cheats[0].name, "A");
    assert_eq!(cheats[0].code, vec!["x"]);
}

#[test]
fn parse_cheat_file_edge_cases() {
    assert!(parse_cheat_file("").is_empty());
    assert!(parse_cheat_file("[only a header]").is_empty());
    let cheats = parse_cheat_file("[]\ncode");
    assert_eq!(cheats.len(), 1);
    assert_eq!(cheats[0].name, "");
    assert_eq!(cheats[0].code, vec!["code"]);
    // "[" alone is not a header
    assert!(parse_cheat_file("[\ncode").is_empty());
}

#[test]
fn code_lines_trim_and_drop_empty() {
    assert_eq!(code_lines("  a \n\n\tb\r\n \n"), vec!["a", "b"]);
    assert!(code_lines("").is_empty());
}

#[test]
fn cheat_code_skips_leading_titles() {
    assert_eq!(cheat_code("[Title]\n{Credits}\n04000000\n[not skipped]\n"), vec!["04000000", "[not skipped]"]);
    assert!(cheat_code("[Only]\n{title}").is_empty());
    let lines = vec!["[a]".to_string(), "{b}".to_string(), "c".to_string(), "[d]".to_string()];
    assert_eq!(skip_header_lines(&lines), vec!["c", "[d]"]);
}

#[test]
fn cheat_names_lose_enclosing_brackets() {
    assert_eq!(name_without_brackets("[ 60 FPS ]"), "60 FPS");
    assert_eq!(name_without_brackets("{[x]}"), "{[x]}");
    assert_eq!(name_without_delimiters("{[ x ]}"), "x");
    assert_eq!(name_without_delimiters("  [x]  "), "[x]");
}

#[test]
fn cheat_map_groups_by_build_in_first_seen_order() {
    let mut m = CheatMap::new();
    assert!(m.is_empty());
    m.push_cheat("B1".to_string(), cheat("a", &["1"], false));
    m.push_cheat("B2".to_string(), cheat("b", &["2"], true));
    m.push_cheat("B1".to_string(), cheat("c", &["3"], false));
    m.ensure_build("B3".to_string());
    assert_eq!(m.len(), 3);
    let ids: Vec<&str> = m.entries().iter().map(|e| e.0.as_str()).collect();
    assert_eq!(ids, vec!["B1", "B2", "B3"]);
    let b1 = m.get(&"B1".to_string()).unwrap();
    assert_eq!(b1.iter().map(|c| c.name.as_str()).collect::<Vec<_>>(), vec!["a", "c"]);
    assert!(m.get(&"B3".to_string()).unwrap().is_empty());
    assert!(m.get(&"B4".to_string()).is_none());
    assert_eq!(m.position(&"B2".to_string()), Some(1));
    assert_eq!(m.total_count(), 3);
    assert!(m.any_checked());
}

#[test]
fn cheat_map_selection() {
    let mut m = CheatMap::new();
    m.extend_build("B1".to_string(), vec![cheat("a", &["1"], false), cheat("b", &["2"], false)]);
    m.extend_build("B2".to_string(), vec![cheat("c", &["3"], false)]);
    assert!(!m.any_checked());
    m.set_checked_build(1, true);
    assert!(m.get(&"B2".to_string()).unwrap()[0].checked);
    assert!(!m.get(&"B1".to_string()).unwrap()[0].checked);
    m.set_checked_all(true);
    assert!(m.entries().iter().all(|e| e.1.iter().all(|c| c.checked)));
    m.set_cheat_checked(0, 1, false);
    assert!(!m.get(&"B1".to_string()).unwrap()[1].checked);
    assert!(m.get(&"B1".to_string()).unwrap()[0].checked);
}

#[test]
fn installed_files_read_back() {
    let mut m = CheatMap::new();
    m.extend_build(
        "0100ABC".to_string(),
        vec![cheat("A", &["1 2", "3"], true), cheat("skip", &["x"], false), cheat("B", &["4"], true)],
    );
    let files = CheatManager::together_files(&m);
    assert_eq!(files.len(), 1);
    assert_eq!(files[0].0, "0100ABC.txt");
    assert_eq!(files[0].1, "[A]\n1 2\n3\n\n[B]\n4\n\n");
    let back = parse_cheat_file(&files[0].1);
    assert_eq!(back.len(), 2);
    assert_eq!(back[0].name, "A");
    assert_eq!(back[0].code, vec!["1 2", "3"]);
    assert_eq!(back[1].name, "B");
    let separate = CheatManager::separate_files(&m);
    assert_eq!(separate.len(), 2);
    assert_eq!(separate[0], ("A".to_string(), "0100ABC.txt".to_string(), "[A]\n1 2\n3\n".to_string()));
    assert_eq!(separate[1].2, "[B]\n4\n");
    let one = parse_cheat_file(&separate[1].2);
    assert_eq!(one.len(), 1);
    assert_eq!(one[0].code, vec!["4"]);
}

#[test]
fn joined_cheat_files_parse_as_each_in_turn() {
    let a = "junk\n[A]\n1\n[no code]\n";
    let b = "  [B] \r\n2\n3\n";
    let joined = parse_cheat_file(&format!("{}\n{}", a, b));
    let mut each = parse_cheat_file(a);
    each.extend(parse_cheat_file(b));
    let names = |v: &Vec<Cheat>| v.iter().map(|c| (c.name.clone(), c.code.clone(), c.checked)).collect::<Vec<_>>();
    assert_eq!(names(&joined), names(&each));
    assert_eq!(joined.len(), 2);
    assert_eq!(joined[1].code, vec!["2", "3"]);
    // without a header first, the second file's lines join the last cheat
    let loose = parse_cheat_file("[A]\n1\n\n2\n");
    assert_eq!(loose[0].code, vec!["1", "2"]);
}
