use ns_emu_cheats_downloader::cheat_provider::{Cheat, CheatMap, CheatProvider, CheatSource};
use ns_emu_cheats_downloader::tinfoil::{empty_string_as_none, strip_html_tags, TinfoilTitle};
use ns_emu_cheats_downloader::ui::cheat_manager::CheatManager;
use ns_emu_cheats_downloader::ui::database_explorer::DatabaseExplorer;

fn title(id: &str, name: &str) -> TinfoilTitle {
    TinfoilTitle { id: id.to_string(), name: name.to_string(), release_date: None, publisher: None }
}

fn map() -> CheatMap {
    let mut m = CheatMap::new();
    m.extend_build(
        "B1".to_string(),
        vec![
            Cheat { name: "a".to_string(), code: vec!["1".to_string()], checked: false },
            Cheat { name: "b".to_string(), code: vec!["2".to_string()], checked: false },
        ],
    );
    m.extend_build("B2".to_string(), vec![Cheat { name: "c".to_string(), code: vec!["3".to_string()], checked: false }]);
    m
}

#[test]
fn published_titles() {
    let t = TinfoilTitle::from_published(
        "0100".to_string(),
        "<b>Caf&#233;</b> ".to_string(),
        Some(String::new()),
        Some("Pub".to_string()),
    );
    assert_eq!(t.name, "Caf\u{e9}");
    assert_eq!(t.release_date, None);
    assert_eq!(t.publisher.as_deref(), Some("Pub"));
    assert_eq!(empty_string_as_none(Some(String::new())), None);
    assert_eq!(empty_string_as_none(None), None);
    assert_eq!(empty_string_as_none(Some("x".to_string())), Some("x".to_string()));
    assert_eq!(strip_html_tags(" <i>x</i> ".to_string()), "x");
}

#[test]
fn explorer_filter() {
    let mut e = DatabaseExplorer::new(vec![title("0100A", "Zelda"), title("0100B", "Mario"), title("0200Z", "Metroid")]);
    assert_eq!(e.shown_titles(), vec![0, 1, 2]);
    e.filter = "M".to_string();
    assert_eq!(e.shown_titles(), vec![1, 2]);
    e.filter = "0100".to_string();
    assert_eq!(e.shown_titles(), vec![0, 1]);
    e.filter = "zelda".to_string();
    assert!(e.shown_titles().is_empty());
}

#[test]
fn set_title_resets_only_for_a_new_title() {
    let mut m = CheatManager::default();
    let icon = m.set_title(title("0100A", "Zelda"));
    assert_eq!(icon.as_deref(), Some("https://tinfoil.io/ti/0100A/235/235"));
    m.build_id = Some("B1".to_string());
    m.receive_cheats(Some(map()));
    assert!(m.set_title(title("0100A", "Zelda again")).is_none());
    assert_eq!(m.build_id.as_deref(), Some("B1"));
    assert!(m.cheats.is_some());
    assert!(m.set_title(title("0100B", "Mario")).is_some());
    assert!(m.build_id.is_none());
    assert!(m.cheats.is_none());
}

#[test]
fn fetch_and_receive() {
    let mut m = CheatManager::default();
    m.set_title(title("0100A", "Zelda"));
    m.cheat_source = CheatSource::Hamlet;
    m.build_id = Some("B1".to_string());
    let (p, name, id) = m.begin_fetch();
    assert!(matches!(p, CheatProvider::Hamlet(_)));
    assert_eq!((name.as_str(), id.as_str()), ("Zelda", "0100A"));
    assert!(m.build_id.is_none());
    m.receive_cheats(Some(CheatMap::new()));
    assert!(m.cheats.is_none());
    m.receive_cheats(Some(map()));
    assert_eq!(m.cheats.as_ref().unwrap().total_count(), 3);
}

#[test]
fn toggle_and_shown_cheats() {
    let mut m = CheatManager::default();
    m.receive_cheats(Some(map()));
    assert_eq!(m.shown_cheats(), vec![(0, 0), (0, 1), (1, 0)]);
    m.build_id = Some("B2".to_string());
    assert_eq!(m.shown_cheats(), vec![(1, 0)]);
    m.toggle_all_cheats(true);
    let c = m.cheats.as_ref().unwrap();
    assert!(c.get(&"B2".to_string()).unwrap()[0].checked);
    assert!(!c.get(&"B1".to_string()).unwrap()[0].checked);
    m.build_id = Some("missing".to_string());
    assert!(m.shown_cheats().is_empty());
    m.toggle_all_cheats(true);
    assert!(m.cheats.as_ref().unwrap().entries().iter().all(|e| e.1.iter().all(|c| c.checked)));
    m.build_id = None;
    m.toggle_all_cheats(false);
    assert!(!m.cheats.as_ref().unwrap().any_checked());
}
