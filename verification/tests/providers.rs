use ns_emu_cheats_downloader::assoc::StrMap;
use ns_emu_cheats_downloader::cheat_provider::blawar::{BlawarDatabase, BlawarProvider, BuildData, BuildEntry, CheatData};
use ns_emu_cheats_downloader::cheat_provider::cheatslips::CheatSlipsProvider;
use ns_emu_cheats_downloader::cheat_provider::github::{GithubItem, GithubProvider};
use ns_emu_cheats_downloader::cheat_provider::hamlet::{CheatEntry, HamletDatabase, HamletProvider};
use ns_emu_cheats_downloader::cheat_provider::tinfoil::TinfoilProvider;
use ns_emu_cheats_downloader::cheat_provider::{CheatMap, CheatProvider, CheatSource};

fn pairs(v: &[(&str, &str)]) -> Vec<(String, String)> {
    v.iter().map(|(a, b)| (a.to_string(), b.to_string())).collect()
}

#[test]
fn source_names() {
    let all = [
        CheatSource::Blawar,
        CheatSource::Chansey,
        CheatSource::CheatSlips,
        CheatSource::GbaTemp,
        CheatSource::Hamlet,
        CheatSource::Ibnux,
        CheatSource::Tinfoil,
    ];
    let names: Vec<&str> = all.iter().map(|s| s.as_str()).collect();
    assert_eq!(names, vec!["Blawar", "Chansey", "CheatSlips", "GbaTemp", "Hamlet", "Ibnux", "Tinfoil"]);
    assert_eq!(CheatSource::default(), CheatSource::Blawar);
}

#[test]
fn providers_of_sources() {
    assert!(matches!(CheatSource::Blawar.provider(), CheatProvider::Blawar(_)));
    assert!(matches!(CheatSource::Hamlet.provider(), CheatProvider::Hamlet(_)));
    assert!(matches!(CheatSource::Tinfoil.provider(), CheatProvider::Tinfoil(_)));
    assert!(matches!(CheatSource::CheatSlips.provider(), CheatProvider::CheatSlips(_)));
    match CheatSource::Ibnux.provider() {
        CheatProvider::Github(g) => assert_eq!(
            g.listing_url("0100000000010000"),
            "https://api.github.com/repos/ibnux/switch-cheat/contents/atmosphere/titles/0100000000010000/cheats"
        ),
        _ => panic!("not a GitHub provider"),
    }
    match CheatSource::GbaTemp.provider() {
        CheatProvider::Github(g) => assert!(g.listing_url("X").contains("gbatemp-matias3ds-cheats/contents/titles/X/cheats")),
        _ => panic!("not a GitHub provider"),
    }
}

#[test]
fn github_listing_url_replaces_every_placeholder() {
    let g = GithubProvider::new("a/{}/b/{}/{");
    assert_eq!(g.listing_url("ID"), "a/ID/b/ID/{");
    let plain = GithubProvider::new("no placeholder");
    assert_eq!(plain.listing_url("ID"), "no placeholder");
}

#[test]
fn github_downloads_and_files() {
    let items = vec![
        GithubItem { name: Some("0100abc.txt".to_string()), download_url: Some("u1".to_string()) },
        GithubItem { name: Some("def.txt.txt".to_string()), download_url: Some("u2".to_string()) },
    ];
    let d = GithubProvider::downloads(&items).unwrap();
    assert_eq!(d, pairs(&[("0100ABC", "u1"), ("DEF", "u2")]));
    let missing = vec![GithubItem { name: Some("a.txt".to_string()), download_url: None }];
    assert!(GithubProvider::downloads(&missing).is_none());
    let files = pairs(&[("B", "[x]\n1\n"), ("A", "[y]\n2\n"), ("B", "[z]\n3\n[empty]\n")]);
    let m = GithubProvider::cheats_from_files(&files);
    assert_eq!(m.len(), 2);
    let b: Vec<&str> = m.get(&"B".to_string()).unwrap().iter().map(|c| c.name.as_str()).collect();
    assert_eq!(b, vec!["x", "z"]);
}

#[test]
fn hamlet_database() {
    let mut builds = StrMap::new();
    builds.insert("attribution".to_string(), CheatEntry::Attribution(pairs(&[("a.txt", "someone")])));
    builds.insert(
        "BID1".to_string(),
        CheatEntry::Cheats(pairs(&[("[HP]", "[HP]\n0400 1\n"), ("{Empty}", "[Empty]\n")])),
    );
    builds.insert("BID2".to_string(), CheatEntry::Cheats(pairs(&[("{ Speed }", "0800 2")])));
    let db = HamletDatabase { builds };
    assert_eq!(db.build_ids(), vec!["BID1", "BID2"]);
    assert!(db.get_cheats(&"attribution".to_string()).is_none());
    assert_eq!(db.get_cheats(&"BID2".to_string()).unwrap().len(), 1);
    let m = HamletProvider::cheats_from_database(&db);
    assert_eq!(m.len(), 2);
    let b1 = m.get(&"BID1".to_string()).unwrap();
    assert_eq!(b1.len(), 1);
    assert_eq!(b1[0].name, "HP");
    assert_eq!(b1[0].code, vec!["0400 1"]);
    assert_eq!(m.get(&"BID2".to_string()).unwrap()[0].name, "Speed");
    assert_eq!(
        HamletProvider::database_url("0100"),
        "https://raw.githubusercontent.com/HamletDuFromage/switch-cheats-db/master/cheats/0100.json"
    );
}

#[test]
fn blawar_database() {
    let mut titles = StrMap::new();
    titles.insert(
        "0100".to_string(),
        vec![(
            "BID".to_string(),
            BuildData {
                entries: vec![
                    ("v".to_string(), BuildEntry::Version(3)),
                    (
                        "c".to_string(),
                        BuildEntry::Cheat(CheatData { title: "[ 60 FPS ]".to_string(), source: "[60 FPS]\n 0400 \n".to_string() }),
                    ),
                ],
            },
        )],
    );
    let db = BlawarDatabase { titles };
    assert!(BlawarProvider::cheats_from_database(&db, &"0200".to_string()).is_none());
    let m = BlawarProvider::cheats_from_database(&db, &"0100".to_string()).unwrap();
    let c = &m.get(&"BID".to_string()).unwrap()[0];
    assert_eq!(c.name, "60 FPS");
    assert_eq!(c.code, vec!["0400"]);
    assert_eq!(BlawarProvider::database_url(), "https://raw.githubusercontent.com/blawar/titledb/master/cheats.json");
}

const TINFOIL_PAGE: &str = r#"
<table class="fixed"><tbody>
<tr><td>BUILD1</td><td>v1.0</td></tr>
<tr><td>BUILD2</td><td>v2.0</td></tr>
</tbody></table>
<div><h4>Cheats</h4>
<div><table><tbody>
<tr><td>[Inf HP]</td><td>v1.0</td><td>x</td><td><ul><li>[Inf HP]</li><li>0400 1</li><li>0400 2</li></ul></td></tr>
<tr><td>No code</td><td>v2.0</td><td>x</td><td><ul><li>{title}</li></ul></td></tr>
<tr><td>{Speed}</td><td>v2.0</td><td>x</td><td><ul><li>0800 <b>3</b></li></ul></td></tr>
</tbody></table></div>
</div>
"#;

#[test]
fn tinfoil_page() {
    let m = TinfoilProvider::cheats_from_page(TINFOIL_PAGE).unwrap();
    assert_eq!(m.len(), 2);
    let b1 = m.get(&"BUILD1".to_string()).unwrap();
    assert_eq!(b1[0].name, "Inf HP");
    assert_eq!(b1[0].code, vec!["0400 1", "0400 2"]);
    let b2 = m.get(&"BUILD2".to_string()).unwrap();
    assert_eq!(b2.len(), 1);
    assert_eq!(b2[0].name, "Speed");
    assert_eq!(b2[0].code, vec!["0800 3"]);
    assert!(TinfoilProvider::cheats_from_page("<div><h4>Other</h4></div>").is_none());
    // the heading must be followed, one node on, by the cheats section
    let shifted = TINFOIL_PAGE.replace("<h4>Cheats</h4>", "<h4>Cheats</h4>\n<p>intro</p>");
    assert!(TinfoilProvider::cheats_from_page(&shifted).unwrap().is_empty());
    // a cheat row naming an unknown patch spoils the page
    let unknown = TINFOIL_PAGE.replace("<td>{Speed}</td><td>v2.0</td>", "<td>{Speed}</td><td>v3.0</td>");
    assert!(TinfoilProvider::cheats_from_page(&unknown).is_none());
    assert_eq!(TinfoilProvider::title_url("0100"), "https://tinfoil.io/Title/0100");
}

#[test]
fn cheatslips_pages() {
    let game = r#"<table><tr><td><a href="/x">0100ab</a></td></tr><tr><td><a>cd</a></td></tr></table>"#;
    assert_eq!(CheatSlipsProvider::build_ids_from_page(game).unwrap(), vec!["0100ab", "cd"]);
    let build = r#"<a class="text-secondary" href="/game/t/12/seg-1">s</a><span class="text-secondary" href="plain">p</span>"#;
    assert_eq!(CheatSlipsProvider::segments_from_page(build).unwrap(), vec!["seg-1", "plain"]);
    assert!(CheatSlipsProvider::segments_from_page(r#"<a class="text-secondary">x</a>"#).is_none());
    let sources = r#"<table><tbody><tr><td><strong>[Infinite]</strong></td></tr><tr><td><pre> 0400 1
0400 2 </pre></td></tr></tbody></table>
<table><tbody><tr><td><strong>Nothing</strong></td></tr></tbody></table>"#;
    let cheats = CheatSlipsProvider::cheats_from_page(sources).unwrap();
    assert_eq!(cheats.len(), 1);
    assert_eq!(cheats[0].name, "Infinite");
    assert_eq!(cheats[0].code, vec!["0400 1", "0400 2"]);
    let mut m = CheatMap::new();
    CheatSlipsProvider::add_build(&mut m, "0100ab", Vec::new());
    assert!(m.is_empty());
    CheatSlipsProvider::add_build(&mut m, "0100ab", cheats);
    assert!(m.get(&"0100AB".to_string()).is_some());
    assert_eq!(CheatSlipsProvider::sources_url("t", "s"), "https://www.cheatslips.com/game/t/s/sources");
    assert_eq!(CheatSlipsProvider::build_url("t", "b"), "https://www.cheatslips.com/game/t/b");
    assert_eq!(CheatSlipsProvider::game_url("t"), "https://www.cheatslips.com/game/t");
}

#[test]
fn cheatslips_pages_gathered_by_build() {
    let page = |name: &str, code: &str| {
        format!("<table><tbody><tr><td><strong>[{}]</strong></td></tr><tr><td><pre>{}</pre></td></tr></tbody></table>", name, code)
    };
    let builds = vec![
        ("0100ab".to_string(), vec![page("A", "0400 1"), page("B", "0400 2")]),
        ("cd".to_string(), Vec::new()),
        ("0100AB".to_string(), vec![page("C", "0400 3")]),
    ];
    let m = CheatSlipsProvider::cheats_from_pages(&builds).unwrap();
    assert_eq!(m.len(), 1);
    let names: Vec<&str> = m.get(&"0100AB".to_string()).unwrap().iter().map(|c| c.name.as_str()).collect();
    assert_eq!(names, vec!["A", "B", "C"]);
    assert!(CheatSlipsProvider::cheats_from_pages(&Vec::new()).unwrap().is_empty());
    // a sources page that cannot be read spoils the whole walk
    let broken = vec![
        ("0100ab".to_string(), vec![page("A", "0400 1")]),
        ("cd".to_string(), vec!["<table><tbody></tbody></table>".to_string()]),
    ];
    assert!(CheatSlipsProvider::cheats_from_pages(&broken).is_none());
}
