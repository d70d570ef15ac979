use github::team::Team;

#[test]
fn team_names_round_trip() {
    for team in [Team::Tools, Team::Libs, Team::Compiler, Team::Lang] {
        assert_eq!(Team::with_name(team.dir()), Ok(team));
    }
}

#[test]
fn unknown_team_name_is_handed_back() {
    assert_eq!(Team::with_name("docs"), Err("docs"));
    assert_eq!(Team::with_name(""), Err(""));
    assert_eq!(Team::with_name("Tools"), Err("Tools"));
}

#[test]
fn team_labels() {
    assert_eq!(Team::Tools.label(), "T-tools");
    assert_eq!(Team::Libs.label(), "T-libs");
    assert_eq!(Team::Compiler.label(), "T-compiler");
    assert_eq!(Team::Lang.label(), "T-lang");
}

#[test]
fn team_dirs() {
    assert_eq!(Team::Tools.dir(), "tools");
    assert_eq!(Team::Libs.dir(), "libs");
    assert_eq!(Team::Compiler.dir(), "compiler");
    assert_eq!(Team::Lang.dir(), "lang");
}
