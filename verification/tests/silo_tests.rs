use silo::archive::{excluded_from_library_backup, extraction_plan, temporary_sibling, zip_entry};
use silo::backups::{
    auto_backup_file_name, backup_summaries, backups_to_prune, check_backup_name, check_game_id,
    list_snapshots, manual_backup_file_name, parse_backup_snapshot, BackupFile, BackupSnapshot,
};
use silo::commands::{is_blacklisted_exe, score_exe_candidate};
use silo::envvars::{env_var_keys, expand_env_vars};
use silo::fonts::{linux_fonts, windows_fonts};
use silo::games::{
    apply_optional, apply_updates, choose_library, delete_game, find_game, list_sessions, mark_installed,
    new_game, record_play, session_minutes, session_record, FieldUpdate, Game, GameUpdates, LibraryLoad,
    SavePathUpdate, SessionRecord, TagsUpdate,
};
use silo::library::{
    best_game_exe, dedupe_by_exe, epic_entry, epic_exe_probes, heroic_epic_library, heroic_exe_lookup,
    heroic_gog_library, icon_exe_path, is_gog_entry, gog_registry_entry, library_folder_paths, library_paths_in,
    manifest_app_id, manifest_app_state, manifest_fields, sort_by_name, ExeLookup, HeroicEntry,
    ImportCandidate,
};
use silo::metadata::{similarity_score, token_overlap};
use silo::places::{
    game_folder, is_protected_dir, linux_protected_dirs, linux_watch_candidates, uninstaller_candidates,
    watcher_base_dirs, windows_watch_candidates,
};
use silo::restore::{restore_next, RestoreStage};
use silo::saveguard::{
    get_save_root, get_save_root_for, is_descendant, is_save_root_excluded, name_matches, pid_is_descendant_of,
    save_root_by_name,
};
use silo::scan::{scan_folder, WalkEntry};
use silo::session::{
    after_poll, detection_due, detection_needed, exit_step, is_game_process, pick_game_process, save_detection_needed,
    under_any_root, ExitStep,
};
use silo::settings::Settings;
use silo::steam::{
    answered_urls, decimal, first_ok, first_steam_match, metadata_candidate, metadata_result, sgdb_games, sgdb_image_urls,
    sgdb_key_set, sort_by_confidence, steam_hits, steam_logo_urls, steam_search_url, JsonText,
    MetadataCandidate, SteamItem,
};
use silo::vdf::{vdf_get, vdf_parse, vdf_str, vdf_tokenize, VdfValue};
use sysinfo::System;

fn strings(v: &[&str]) -> Vec<String> {
    v.iter().map(|s| s.to_string()).collect()
}

// ----- parse_backup_snapshot -----

#[test]
fn parse_backup_snapshot_auto() {
    let snap = parse_backup_snapshot("auto_20240101_120000.zip").unwrap();
    assert_eq!(snap.name, "auto_20240101_120000.zip");
    assert_eq!(snap.timestamp, "2024-01-01 12:00:00");
    assert!(snap.is_auto);
    assert_eq!(snap.custom_name, None);
    assert_eq!(snap.size_bytes, 0);
}

#[test]
fn parse_backup_snapshot_manual_urldecodes_custom_name() {
    let snap = parse_backup_snapshot("manual_20240101_120000_My%20Save.zip").unwrap();
    assert_eq!(snap.timestamp, "2024-01-01 12:00:00");
    assert!(!snap.is_auto);
    assert_eq!(snap.custom_name.as_deref(), Some("My Save"));
}

#[test]
fn parse_backup_snapshot_manual_without_custom_name() {
    let snap = parse_backup_snapshot("manual_20240101_120000.zip").unwrap();
    assert_eq!(snap.timestamp, "2024-01-01 12:00:00");
    assert!(!snap.is_auto);
    assert_eq!(snap.custom_name, None);
}

#[test]
fn parse_backup_snapshot_legacy() {
    let snap = parse_backup_snapshot("backup_20240101.zip").unwrap();
    assert_eq!(snap.name, "backup_20240101.zip");
    assert_eq!(snap.timestamp, "20240101");
    assert!(!snap.is_auto);
    assert_eq!(snap.custom_name, None);
}

#[test]
fn parse_backup_snapshot_rejects_non_zip() {
    assert!(parse_backup_snapshot("auto_20240101_120000.txt").is_none());
    assert!(parse_backup_snapshot("backup_20240101").is_none());
    assert!(parse_backup_snapshot("").is_none());
}

#[test]
fn parse_backup_snapshot_garbage_gets_unknown_time() {
    let snap = parse_backup_snapshot("random_thing.zip").unwrap();
    assert_eq!(snap.timestamp, "Unknown Time");
    assert!(!snap.is_auto);
    assert_eq!(snap.custom_name, None);
}

#[test]
fn parse_backup_snapshot_auto_ignores_extra_part() {
    let snap = parse_backup_snapshot("auto_20240101_120000_Extra.zip").unwrap();
    assert!(snap.is_auto);
    assert_eq!(snap.timestamp, "2024-01-01 12:00:00");
    assert_eq!(snap.custom_name, None);
}

// ----- is_blacklisted_exe -----

#[test]
fn is_blacklisted_exe_matches_known_tools() {
    for name in [
        "unins000.exe",
        "vcredist_x64.exe",
        "ue4prereqsetup.exe",
        "battleye_launcher.exe",
        "setup.exe",
        "steamwebhelper.exe",
    ] {
        assert!(is_blacklisted_exe(name), "expected {} blacklisted", name);
    }
}

#[test]
fn is_blacklisted_exe_allows_real_games() {
    for name in ["witcher3.exe", "RDR2.exe", "borderlands3.exe", ""] {
        assert!(!is_blacklisted_exe(name), "expected {} not blacklisted", name);
    }
}

// ----- score_exe_candidate -----

#[test]
fn score_prefers_matching_stem() {
    let a = score_exe_candidate("witcher3", "witcher3", 1, 100_000_000);
    let b = score_exe_candidate("witcher3", "somethingelse", 1, 100_000_000);
    assert!(a > b, "matching stem should score higher ({} vs {})", a, b);
}

#[test]
fn score_prefers_shallower_depth() {
    let a = score_exe_candidate("game", "game", 1, 100_000_000);
    let b = score_exe_candidate("game", "game", 4, 100_000_000);
    assert!(a > b, "shallower depth should score higher ({} vs {})", a, b);
}

#[test]
fn score_prefers_larger_files() {
    let a = score_exe_candidate("game", "game", 1, 200_000_000);
    let b = score_exe_candidate("game", "game", 1, 100_000_000);
    assert!(a > b, "larger file should score higher ({} vs {})", a, b);
}

#[test]
fn score_deprioritizes_variant_suffixes() {
    let base = score_exe_candidate("game", "game", 1, 100_000_000);
    for suffix in ["_be", "_launcher", "_server"] {
        let variant = score_exe_candidate(&format!("game{}", suffix), "game", 1, 100_000_000);
        assert!(base > variant, "{} should score lower", suffix);
    }
}

#[test]
fn score_exact_values() {
    // 50 for the name, -5 per level, +1 per 10 MiB.
    assert_eq!(score_exe_candidate("game", "game", 1, 100_000_000), 50 - 5 + 9);
    assert_eq!(score_exe_candidate("game_be", "game", 2, 0), 50 - 10 - 30);
    assert_eq!(score_exe_candidate("tool", "other", 0, 10_485_760), 1);
}

// ----- apply_optional / game edits -----

#[test]
fn apply_optional_clears_on_null_sets_on_string() {
    let mut t = Some("keep".to_string());
    apply_optional(&FieldUpdate::Null, &mut t);
    assert_eq!(t, None);

    apply_optional(&FieldUpdate::Text("v".to_string()), &mut t);
    assert_eq!(t.as_deref(), Some("v"));

    let mut untouched = Some("x".to_string());
    apply_optional(&FieldUpdate::Absent, &mut untouched);
    assert_eq!(untouched.as_deref(), Some("x"));
}

#[test]
fn apply_optional_ignores_other_values() {
    let mut t = Some("keep".to_string());
    apply_optional(&FieldUpdate::Other, &mut t);
    assert_eq!(t.as_deref(), Some("keep"));
}

fn sample_game(id: &str, name: &str) -> Game {
    new_game(
        id.to_string(),
        name.to_string(),
        Some(format!("/games/{}/{}.exe", name, name)),
        None,
        None,
        None,
        None,
        "now".to_string(),
        None,
    )
}

#[test]
fn new_game_starts_unplayed_with_five_snapshots() {
    let g = new_game(
        "1".to_string(),
        "Portal".to_string(),
        None,
        None,
        None,
        None,
        None,
        "t".to_string(),
        Some("/saves/portal".to_string()),
    );
    assert_eq!(g.playtime_minutes, 0);
    assert_eq!(g.session_count, 0);
    assert_eq!(g.backup_count, Some(5));
    assert_eq!(g.is_installed, Some(true));
    assert_eq!(g.save_path_source.as_deref(), Some("manual"));
    let h = sample_game("2", "Quake");
    assert_eq!(h.save_path_source, None);
    assert!(h.tags.is_empty());
}

#[test]
fn apply_updates_changes_only_what_is_sent() {
    let mut g = sample_game("1", "Portal");
    let u = GameUpdates {
        name: Some("Portal 2".to_string()),
        exe_path: FieldUpdate::Null,
        wallpaper: FieldUpdate::Text("w.png".to_string()),
        logo_path: FieldUpdate::Absent,
        font_family: FieldUpdate::Other,
        font_color: FieldUpdate::Absent,
        status: FieldUpdate::Text("done".to_string()),
        save_path: SavePathUpdate::Resolved(Some("/saves/p2".to_string())),
        backup_count: Some(4_294_967_298),
        favorite: Some(true),
        tags: TagsUpdate::List(vec![Some("coop".to_string()), None, Some("puzzle".to_string())]),
    };
    apply_updates(&mut g, &u);
    assert_eq!(g.name, "Portal 2");
    assert_eq!(g.exe_path, None);
    assert_eq!(g.wallpaper.as_deref(), Some("w.png"));
    assert_eq!(g.status.as_deref(), Some("done"));
    assert_eq!(g.save_path.as_deref(), Some("/saves/p2"));
    assert_eq!(g.save_path_source.as_deref(), Some("manual"));
    // The count is truncated to 32 bits, as the `as u32` cast does.
    assert_eq!(g.backup_count, Some(2));
    assert!(g.favorite);
    assert_eq!(g.tags, strings(&["coop", "puzzle"]));

    let clear = GameUpdates {
        name: None,
        exe_path: FieldUpdate::Absent,
        wallpaper: FieldUpdate::Absent,
        logo_path: FieldUpdate::Absent,
        font_family: FieldUpdate::Absent,
        font_color: FieldUpdate::Absent,
        status: FieldUpdate::Absent,
        save_path: SavePathUpdate::Clear,
        backup_count: None,
        favorite: None,
        tags: TagsUpdate::Clear,
    };
    apply_updates(&mut g, &clear);
    assert_eq!(g.name, "Portal 2");
    assert_eq!(g.save_path, None);
    assert_eq!(g.save_path_source, None);
    assert!(g.tags.is_empty());
}

#[test]
fn find_and_delete_games_by_id() {
    let mut games = vec![sample_game("1", "A"), sample_game("2", "B"), sample_game("1", "C")];
    assert_eq!(find_game(&games, "2"), Some(1));
    assert_eq!(find_game(&games, "9"), None);
    assert!(delete_game(&mut games, "1"));
    assert_eq!(games.len(), 1);
    assert_eq!(games[0].name, "B");
    assert!(!delete_game(&mut games, "1"));
    assert_eq!(games.len(), 1);
}

#[test]
fn mark_installed_follows_the_executable() {
    let mut games = vec![sample_game("1", "A"), sample_game("2", "B")];
    games[1].exe_path = None;
    mark_installed(&mut games, &vec![false, true]);
    assert_eq!(games[0].is_installed, Some(false));
    assert_eq!(games[1].is_installed, Some(false));
    mark_installed(&mut games, &vec![true, true]);
    assert_eq!(games[0].is_installed, Some(true));
}

#[test]
fn choose_library_recovers_from_the_backup() {
    let (g, how) = choose_library(true, Some(vec![sample_game("1", "A")]), None);
    assert_eq!((g.len(), how), (1, LibraryLoad::Primary));
    let (g, how) = choose_library(false, None, Some(vec![sample_game("1", "A"), sample_game("2", "B")]));
    assert_eq!((g.len(), how), (2, LibraryLoad::RecoveredMissing));
    let (g, how) = choose_library(true, None, Some(vec![sample_game("1", "A")]));
    assert_eq!((g.len(), how), (1, LibraryLoad::RecoveredCorrupt));
    let (g, how) = choose_library(true, None, None);
    assert_eq!((g.len(), how), (0, LibraryLoad::RecoveryFailed));
    let (g, how) = choose_library(false, None, None);
    assert_eq!((g.len(), how), (0, LibraryLoad::Empty));
}

#[test]
fn session_minutes_round_up() {
    assert_eq!(session_minutes(0), 0);
    assert_eq!(session_minutes(1), 1);
    assert_eq!(session_minutes(60), 1);
    assert_eq!(session_minutes(61), 2);
    assert_eq!(session_minutes(3599), 60);
}

#[test]
fn record_play_adds_minutes_and_a_session() {
    let mut g = sample_game("1", "A");
    record_play(&mut g, 42, "2024-01-01T00:00:00+00:00".to_string());
    record_play(&mut g, 0, "2024-01-02T00:00:00+00:00".to_string());
    assert_eq!(g.playtime_minutes, 42);
    assert_eq!(g.session_count, 2);
    assert_eq!(g.last_played.as_deref(), Some("2024-01-02T00:00:00+00:00"));
}

#[test]
fn session_record_falls_back_to_now() {
    let r = session_record("g".to_string(), None, "now".to_string(), 5);
    assert_eq!((r.game_id.as_str(), r.started_at.as_str(), r.minutes), ("g", "now", 5));
    let r = session_record("g".to_string(), Some("then".to_string()), "now".to_string(), 5);
    assert_eq!(r.started_at, "then");
}

#[test]
fn list_sessions_newest_first() {
    let rec = |id: &str, at: &str| SessionRecord { game_id: id.to_string(), started_at: at.to_string(), minutes: 1 };
    let out = list_sessions(vec![
        rec("a", "2024-01-01T10:00:00+00:00"),
        rec("b", "not a date"),
        rec("c", "2024-03-01T10:00:00+00:00"),
        rec("d", "2024-01-01T12:00:00+02:00"),
    ]);
    let ids: Vec<&str> = out.iter().map(|s| s.game_id.as_str()).collect();
    // "d" is 10:00 UTC, the same instant as "a": equal keys keep their order.
    assert_eq!(ids, vec!["c", "a", "d", "b"]);
}

// ----- save detection during a session -----

#[test]
fn save_detection_needed_without_path() {
    // No known folder -> always watch while the game runs.
    assert!(save_detection_needed(None));
    assert!(save_detection_needed(Some("")));
}

#[test]
fn game_process_is_found_by_name_preferring_our_own() {
    assert!(is_game_process("Game.EXE", "game.exe"));
    assert!(!is_game_process("other.exe", "game.exe"));
    assert_eq!(pick_game_process(&vec![(10, false), (11, true), (12, true)], 0), Some((11, true)));
    assert_eq!(pick_game_process(&vec![(10, false), (12, false)], 2), None);
    assert_eq!(pick_game_process(&vec![(10, false), (12, false)], 3), Some((10, false)));
    assert_eq!(pick_game_process(&vec![], 30), None);
}

#[test]
fn session_ends_when_launcher_and_game_are_gone() {
    assert_eq!(after_poll(false, false, false, 100), (true, true));
    assert_eq!(after_poll(true, true, false, 100), (true, true));
    assert_eq!(after_poll(true, false, false, 5), (true, false));
    assert_eq!(after_poll(true, false, false, 12), (false, false));
    assert_eq!(after_poll(true, false, true, 5), (false, true));
}

#[test]
fn detection_runs_at_most_every_interval() {
    assert!(detection_due(None, 1, false));
    assert!(!detection_due(None, 0, false));
    assert!(!detection_due(Some(749), 3, false));
    assert!(detection_due(Some(750), 3, false));
    assert!(!detection_due(Some(10_000), 3, true));
}

#[test]
fn exit_step_reports_every_outcome() {
    assert!(matches!(exit_step(Some("/s".to_string()), true, false), ExitStep::Backup(p) if p == "/s"));
    assert!(matches!(exit_step(Some("/s".to_string()), false, true), ExitStep::FolderMissing(p) if p == "/s"));
    assert!(matches!(exit_step(None, false, true), ExitStep::NothingFound));
    assert!(matches!(exit_step(None, false, false), ExitStep::Nothing));
}

#[test]
fn writes_under_a_known_root_are_skipped() {
    let roots = strings(&["/home/u/Saved Games/Game"]);
    assert!(under_any_root("/home/u/Saved Games/Game/slot1.sav", &roots));
    assert!(under_any_root("/home/u/Saved Games/Game", &roots));
    assert!(!under_any_root("/home/u/Saved Games/Game2/slot1.sav", &roots));
}

// ----- vdf -----

#[test]
fn vdf_parse_reads_nested_acf() {
    let data = "\"AppState\"\n{\n\t\"appid\"\t\t\"1234\"\n\t\"name\"\t\t\"Witcher 3\"\n\t\"UserConfig\"\n\t{\n\t\t\"Language\"\t\t\"english\"\n\t}\n}\n";
    let root = vdf_parse(data).expect("valid acf should parse");
    let state = root.iter().find(|(k, _)| k == "AppState").expect("AppState key");
    let map = match &state.1 {
        VdfValue::Table(m) => m,
        _ => panic!("AppState should be a map"),
    };
    assert_eq!(vdf_str(vdf_get(map, "appid").unwrap()).unwrap(), "1234");
    assert_eq!(vdf_str(vdf_get(map, "name").unwrap()).unwrap(), "Witcher 3");
    match vdf_get(map, "UserConfig").unwrap() {
        VdfValue::Table(uc) => {
            assert_eq!(vdf_str(vdf_get(uc, "Language").unwrap()).unwrap(), "english");
        }
        _ => panic!("UserConfig should be a map"),
    }
}

#[test]
fn vdf_parse_unbalanced_braces_returns_none() {
    // Missing closing brace.
    assert!(vdf_parse("\"AppState\" { \"name\" \"Game\"").is_none());
    // Extra trailing closing brace.
    assert!(vdf_parse("\"AppState\" { \"name\" \"Game\" } }").is_none());
    // Map opened but never closed.
    assert!(vdf_parse("\"AppState\" {").is_none());
}

#[test]
fn vdf_parse_empty_input_returns_none() {
    assert!(vdf_parse("").is_none());
    assert!(vdf_parse("   \n\t ").is_none());
}

#[test]
fn vdf_parse_flat_key_value_works() {
    let root = vdf_parse("\"key\" \"value\"").expect("flat kv should parse");
    let (k, v) = root.first().unwrap();
    assert_eq!(k, "key");
    assert_eq!(vdf_str(v).unwrap(), "value");
}

#[test]
fn vdf_tokenize_handles_escapes() {
    assert_eq!(vdf_tokenize(r#""a\nb""#), vec!["a\nb"]);
    assert_eq!(vdf_tokenize(r#""a\tb""#), vec!["a\tb"]);
    assert_eq!(vdf_tokenize(r#""a\"b""#), vec!["a\"b"]);
    assert_eq!(vdf_tokenize(r#""a\\b""#), vec!["a\\b"]);
}

#[test]
fn vdf_tokenize_drops_unterminated_strings() {
    assert_eq!(vdf_tokenize("\"unterminated"), Vec::<String>::new());
}

#[test]
fn vdf_parse_libraryfolders_shape() {
    let data = "\"libraryfolders\"\n{\n\t\"1\"\n\t{\n\t\t\"path\"\t\t\"D:\\\\SteamLibrary\"\n\t}\n}";
    let root = vdf_parse(data).expect("libraryfolders should parse");
    let (_, folders) = root.iter().find(|(k, _)| k == "libraryfolders").unwrap();
    let entries = match folders {
        VdfValue::Table(m) => m,
        _ => panic!("libraryfolders should be a map"),
    };
    let one = entries.iter().find(|(k, _)| k == "1").expect("library 1");
    match &one.1 {
        VdfValue::Table(folder) => {
            assert_eq!(vdf_str(vdf_get(folder, "path").unwrap()).unwrap(), r"D:\SteamLibrary");
        }
        _ => panic!("library 1 should be a map"),
    }
}

#[test]
fn vdf_tokenize_reads_braces_and_bare_words() {
    assert_eq!(vdf_tokenize("\"a\" { \"b\" \"c\" }"), vec!["a", "{", "b", "c", "}"]);
}

// ----- library import -----

#[test]
fn library_folder_paths_lists_every_library() {
    let data = "\"libraryfolders\"\n{\n\t\"0\"\n\t{\n\t\t\"path\"\t\t\"C:\\\\Steam\"\n\t}\n\t\"1\"\n\t{\n\t\t\"path\"\t\t\"D:\\\\Games\"\n\t\t\"label\"\t\t\"\"\n\t}\n\t\"contentstatsid\"\t\t\"123\"\n}";
    let root = vdf_parse(data).unwrap();
    assert_eq!(library_folder_paths(&root), strings(&["C:\\Steam", "D:\\Games"]));
}

#[test]
fn manifest_app_state_reads_name_and_folder() {
    let data = "\"AppState\"\n{\n\t\"appid\"\t\t\"620\"\n\t\"name\"\t\t\"Portal 2\"\n\t\"installdir\"\t\t\"Portal 2\"\n}";
    let root = vdf_parse(data).unwrap();
    let (name, dir) = manifest_app_state(&root, "620").unwrap();
    assert_eq!(name, "Portal 2");
    assert_eq!(dir.as_deref(), Some("Portal 2"));
    let bare = vdf_parse("\"AppState\" { \"appid\" \"1\" }").unwrap();
    let (name, dir) = manifest_app_state(&bare, "1").unwrap();
    assert_eq!((name.as_str(), dir), ("1", None));
    assert!(manifest_app_state(&vdf_parse("\"k\" \"v\"").unwrap(), "1").is_none());
}

#[test]
fn manifest_app_id_strips_prefix_and_suffix() {
    assert_eq!(manifest_app_id("appmanifest_1234.acf").as_deref(), Some("1234"));
    assert_eq!(manifest_app_id("appmanifest_appmanifest_7.acf.acf").as_deref(), Some("7"));
    assert_eq!(manifest_app_id("libraryfolders.vdf"), None);
    assert_eq!(manifest_app_id("appmanifest_1.txt"), None);
}

#[test]
fn library_paths_in_keeps_everything_after_the_third_quote() {
    let data = "\"libraryfolders\"\n{\n\t\"0\"\n\t{\n\t\t\"path\"\t\t\"/home/u/.local/share/Steam\"\n\t}\n}\n";
    assert_eq!(library_paths_in(data), strings(&["/home/u/.local/share/Steam\""]));
    assert!(library_paths_in("no quotes here\n").is_empty());
}

#[test]
fn manifest_fields_reads_name_and_install_dir() {
    let data = "\"AppState\"\n{\n\t\"appid\"\t\t\"620\"\n\t\"name\"\t\t\"Portal 2\"\n\t\"installdir\"\t\t\"Portal 2\"\n}";
    let (name, dir) = manifest_fields(data, "620").unwrap();
    assert_eq!(name, "Portal 2\"");
    assert_eq!(dir, "Portal 2\"");
    assert!(manifest_fields("\"AppState\"\n{\n}", "620").is_none());
}

fn cand(name: &str, exe: Option<&str>) -> ImportCandidate {
    ImportCandidate {
        name: name.to_string(),
        source: "GOG".to_string(),
        app_id: None,
        exe_path: exe.map(|s| s.to_string()),
    }
}

#[test]
fn dedupe_by_exe_keeps_the_first_per_executable() {
    let out = dedupe_by_exe(vec![
        cand("A", Some("C:\\Games\\A.exe")),
        cand("A again", Some("c:\\games\\a.EXE")),
        cand("B", None),
        cand("C", None),
        cand("D", Some("C:\\Games\\D.exe")),
    ]);
    let names: Vec<&str> = out.iter().map(|c| c.name.as_str()).collect();
    assert_eq!(names, vec!["A", "B", "C", "D"]);
}

#[test]
fn sort_by_name_ignores_case_and_keeps_ties() {
    let out = sort_by_name(vec![cand("beta", None), cand("Alpha", None), cand("ALPHA", Some("x")), cand("Gamma", None)]);
    let names: Vec<&str> = out.iter().map(|c| c.name.as_str()).collect();
    assert_eq!(names, vec!["Alpha", "ALPHA", "beta", "Gamma"]);
}

#[test]
fn gog_entries_are_recognised() {
    assert!(is_gog_entry(Some("GOG.com"), "The Witcher", None));
    assert!(is_gog_entry(None, "GOG Galaxy", None));
    assert!(is_gog_entry(None, "Witcher", Some("D:\\GOG Games\\Witcher")));
    assert!(!is_gog_entry(Some("Valve"), "Portal", Some("C:\\Program Files")));
}

#[test]
fn icon_exe_path_takes_the_part_before_the_comma() {
    assert_eq!(icon_exe_path("/games/witcher/witcher.exe,0").as_deref(), Some("/games/witcher/witcher.exe"));
    assert_eq!(icon_exe_path("/games/witcher/witcher.ico,0"), None);
    assert_eq!(icon_exe_path("/games/witcher/witcher.EXE"), None);
}

fn entry(path: &str, depth: usize, size: Option<u64>) -> WalkEntry {
    WalkEntry { path: path.to_string(), depth, is_file: true, size }
}

#[test]
fn best_game_exe_prefers_the_named_binary() {
    let entries = vec![
        WalkEntry { path: "/g/Portal".to_string(), depth: 0, is_file: false, size: None },
        entry("/g/Portal/launcher_helper.exe", 1, Some(90_000_000)),
        entry("/g/Portal/portal.sh", 1, Some(100)),
        entry("/g/Portal/bin/portal_launcher.x86_64", 2, Some(80_000_000)),
        entry("/g/Portal/readme.txt", 1, Some(50)),
    ];
    // portal.sh: 50 - 5 + 0 = 45; portal_launcher: 50 - 10 - 30 + 7 = 17.
    assert_eq!(best_game_exe("/g/Portal", &entries, false).as_deref(), Some("/g/Portal/portal.sh"));
    // On Windows only .exe counts, and small ones do not.
    assert_eq!(best_game_exe("/g/Portal", &entries, true), None);
}

#[test]
fn heroic_libraries_skip_untitled_games_and_sort() {
    let e = |title: Option<&str>, app: &str| HeroicEntry {
        app_name: Some(app.to_string()),
        title: title.map(|s| s.to_string()),
        install_path: None,
        executable: None,
    };
    let entries = vec![e(Some("Zeta"), "z"), e(None, "n"), e(Some(""), "m"), e(Some("alpha"), "a")];
    let exes = vec![Some("/z".to_string()), None, None, None];
    let out = heroic_epic_library(&entries, &exes);
    assert_eq!(out.len(), 2);
    assert_eq!((out[0].name.as_str(), out[0].source.as_str(), out[0].app_id.as_deref()), ("alpha", "Epic", Some("a")));
    assert_eq!((out[1].name.as_str(), out[1].exe_path.as_deref()), ("Zeta", Some("/z")));
    let gog = heroic_gog_library(&entries, &exes);
    assert_eq!(gog[0].source, "GOG");
}

#[test]
fn heroic_exe_lookup_prefers_the_recorded_executable() {
    match heroic_exe_lookup(&Some("/games/x".to_string()), &Some("bin/x".to_string())) {
        ExeLookup::FileOrScan { file, dir } => {
            assert_eq!(file, "/games/x/bin/x");
            assert_eq!(dir, "/games/x");
        }
        _ => panic!("expected a file to try"),
    }
    assert!(matches!(heroic_exe_lookup(&Some("/games/x".to_string()), &None), ExeLookup::Scan(d) if d == "/games/x"));
    assert!(matches!(heroic_exe_lookup(&None, &Some("x".to_string())), ExeLookup::Nothing));
}

#[test]
fn epic_manifests_become_candidates() {
    let probes = epic_exe_probes(&Some("/e/Game".to_string()), &Some("Game.exe".to_string()), &Some("Bin/G.exe".to_string()));
    assert_eq!(probes, strings(&["/e/Game/Game.exe", "/e/Game/Bin/G.exe"]));
    assert!(epic_exe_probes(&None, &Some("a".to_string()), &None).is_empty());
    let c = epic_entry(Some("Fortnite".to_string()), Some("fn".to_string()), None).unwrap();
    assert_eq!((c.name.as_str(), c.source.as_str(), c.app_id.as_deref()), ("Fortnite", "Epic", Some("fn")));
    assert!(epic_entry(Some("   ".to_string()), None, None).is_none());
    assert!(epic_entry(None, None, None).is_none());
}

// ----- folder scan -----

#[test]
fn scan_folder_picks_one_executable_per_game() {
    let entries = vec![
        WalkEntry { path: "/games".to_string(), depth: 0, is_file: false, size: None },
        entry("/games/Witcher3/bin/witcher3.exe", 3, Some(50_000_000)),
        entry("/games/Witcher3/bin/witcher3_launcher.exe", 3, Some(60_000_000)),
        entry("/games/Witcher3/unins000.exe", 2, Some(2_000_000)),
        entry("/games/Tiny/tiny.exe", 2, Some(1000)),
        entry("/games/Portal/portal.exe", 2, Some(20_000_000)),
        entry("/games/readme.txt", 1, Some(10)),
        entry("/games/solo.exe", 1, None),
    ];
    let out = scan_folder("/games", true, &entries).unwrap();
    let got: Vec<(&str, &str)> = out.iter().map(|g| (g.name.as_str(), g.exe_path.as_str())).collect();
    assert_eq!(
        got,
        vec![
            ("games", "/games/solo.exe"),
            ("Portal", "/games/Portal/portal.exe"),
            ("Witcher3", "/games/Witcher3/bin/witcher3.exe"),
        ]
    );
    assert_eq!(scan_folder("/nope", false, &entries).unwrap_err(), "Invalid folder path");
}

// ----- metadata -----

#[test]
fn token_overlap_identical_names() {
    let o = token_overlap("Red Dead Redemption 2", "Red Dead Redemption 2");
    assert!(o.identical);
    assert_eq!((o.query_tokens, o.candidate_tokens, o.shared), (4, 4, 4));
    assert!(token_overlap("Portal", "Portal").identical);
}

#[test]
fn token_overlap_is_case_insensitive() {
    assert!(token_overlap("WITCHER 3", "witcher 3").identical);
    assert!(token_overlap("Witcher 3", "WITCHER 3").identical);
}

#[test]
fn token_overlap_of_empty_names() {
    assert_eq!(token_overlap("", "Witcher 3").query_tokens, 0);
    assert_eq!(token_overlap("Witcher 3", "").candidate_tokens, 0);
}

#[test]
fn token_overlap_sequel_vs_base() {
    let o = token_overlap("Red Dead Redemption 2", "Red Dead Redemption");
    assert!(!o.identical);
    assert_eq!((o.query_tokens, o.candidate_tokens, o.shared), (4, 3, 3));
}

#[test]
fn token_overlap_single_char_tokens() {
    assert_eq!(token_overlap("A", "A").query_tokens, 0);
    let o = token_overlap("7", "7");
    assert!(o.identical);
    assert_eq!(o.shared, 1);
}

#[test]
fn decimal_writes_integers() {
    assert_eq!(decimal(0), "0");
    assert_eq!(decimal(620), "620");
    assert_eq!(decimal(-42), "-42");
    assert_eq!(decimal(i64::MIN), i64::MIN.to_string());
}

#[test]
fn steam_requests_are_built_from_the_name() {
    assert_eq!(
        steam_search_url("Half-Life 2"),
        "https://store.steampowered.com/api/storesearch/?term=Half-Life%202&l=english&cc=US"
    );
    assert_eq!(
        steam_logo_urls("620"),
        strings(&[
            "https://shared.akamai.steamstatic.com/store_item_assets/steam/apps/620/logo.png",
            "https://cdn.cloudflare.steamstatic.com/steam/apps/620/logo.png",
        ])
    );
}

fn item(kind: Option<&str>, id: Option<i64>, name: Option<&str>) -> SteamItem {
    SteamItem {
        kind: kind.map(|s| s.to_string()),
        has_id: id.is_some(),
        id,
        has_name: name.is_some(),
        name: name.map(|s| s.to_string()),
    }
}

#[test]
fn first_steam_match_reads_the_first_item() {
    let items = vec![item(Some("app"), Some(620), Some("Portal 2")), item(Some("app"), Some(400), Some("Portal"))];
    assert_eq!(first_steam_match(&items, "portal"), Some(("Portal 2".to_string(), "620".to_string())));
    let odd = vec![SteamItem { kind: None, has_id: true, id: None, has_name: true, name: None }];
    assert_eq!(first_steam_match(&odd, "q"), Some(("q".to_string(), "0".to_string())));
    assert_eq!(first_steam_match(&vec![item(None, None, Some("x"))], "q"), None);
    assert_eq!(first_steam_match(&vec![], "q"), None);
}

#[test]
fn steam_hits_take_the_first_five_apps() {
    let mut items = vec![item(Some("dlc"), Some(1), Some("dlc"))];
    for i in 0..7 {
        items.push(item(Some("app"), Some(100 + i), Some(&format!("g{}", i))));
    }
    items[2] = SteamItem { kind: Some("app".to_string()), has_id: true, id: None, has_name: false, name: None };
    let hits = steam_hits(&items, "q");
    let ids: Vec<&str> = hits.iter().map(|h| h.0.as_str()).collect();
    // The second app hit has an id that is not an integer: it uses one of the five places.
    assert_eq!(ids, vec!["100", "102", "103", "104"]);
}

#[test]
fn first_ok_picks_the_first_answer() {
    let urls = strings(&["a", "b", "c"]);
    assert_eq!(first_ok(&urls, &vec![false, true, true]), "b");
    assert_eq!(first_ok(&urls, &vec![false, false, false]), "");
}

fn mc(name: &str, confidence: u8, logos: usize) -> MetadataCandidate {
    metadata_candidate(
        name.to_string(),
        "Steam".to_string(),
        "1".to_string(),
        (0..logos).map(|i| format!("l{}", i)).collect(),
        vec![],
        confidence,
    )
}

#[test]
fn metadata_candidates_sort_by_confidence() {
    let c = mc("x", 10, 2);
    assert_eq!(c.logo.as_deref(), Some("l0"));
    assert_eq!(c.wallpaper, None);
    let out = sort_by_confidence(vec![mc("a", 50, 0), mc("b", 90, 0), mc("c", 50, 0)]);
    let names: Vec<&str> = out.iter().map(|c| c.name.as_str()).collect();
    assert_eq!(names, vec!["b", "a", "c"]);
}

#[test]
fn metadata_result_merges_sgdb_when_keyed() {
    let r = metadata_result("q".to_string(), vec![mc("steam", 40, 1)], true, vec![mc("grid", 80, 3)]);
    assert!(r.has_sgdb);
    assert_eq!(r.sgdb_count, 3);
    assert_eq!(r.candidates[0].name, "grid");
    let r = metadata_result("q".to_string(), vec![mc("steam", 40, 1)], false, vec![]);
    assert!(!r.has_sgdb);
    assert_eq!(r.candidates.len(), 1);
    assert!(sgdb_key_set(Some(" k ")));
    assert!(!sgdb_key_set(Some("   ")));
    assert!(!sgdb_key_set(None));
}

#[test]
fn sgdb_answers_are_read() {
    let items = vec![
        (JsonText::Text("full1".to_string()), JsonText::Text("url1".to_string())),
        (JsonText::Absent, JsonText::Text("url2".to_string())),
        (JsonText::Other, JsonText::Text("url3".to_string())),
        (JsonText::Absent, JsonText::Absent),
        (JsonText::Text("full5".to_string()), JsonText::Absent),
    ];
    assert_eq!(sgdb_image_urls(&items, 3), strings(&["full1", "url2"]));
    assert_eq!(sgdb_image_urls(&items, 10), strings(&["full1", "url2", "full5"]));
    let games = sgdb_games(&vec![(Some(1), Some("A".to_string())), (None, Some("B".to_string())), (Some(3), None)]);
    assert_eq!(games, vec![("1".to_string(), "A".to_string()), ("3".to_string(), String::new())]);
}

// ----- saveguard -----

#[test]
fn is_save_root_excluded_covers_known_cache_folders() {
    for folder in ["temp", "cache", "crashpad", "crash_reports", "logs", "shadercache", "nvidia"] {
        assert!(is_save_root_excluded(folder), "expected {:?} excluded", folder);
    }
}

#[test]
fn is_save_root_excluded_allows_game_folders() {
    assert!(!is_save_root_excluded("Witcher 3"));
    assert!(!is_save_root_excluded("Borderlands 3"));
    assert!(!is_save_root_excluded("My Games"));
}

#[test]
fn get_save_root_returns_first_component_under_base() {
    let base = "/home/test/Saved Games".to_string();
    let path = "/home/test/Saved Games/Witcher 3/saves/game0";
    assert_eq!(get_save_root(path, &[base.clone()]), Some("/home/test/Saved Games/Witcher 3".to_string()));
}

#[test]
fn get_save_root_returns_none_for_excluded_first_component() {
    let base = "/home/test/.local/share".to_string();
    let path = "/home/test/.local/share/Temp/save/game0";
    assert_eq!(get_save_root(path, &[base]), None);
}

#[test]
fn get_save_root_returns_none_outside_any_base() {
    let base = "/home/test/Saved Games".to_string();
    let path = "/mnt/games/Witcher 3/saves";
    assert_eq!(get_save_root(path, &[base]), None);
}

#[test]
fn name_matches_folds_case_spaces_and_extensions() {
    assert!(name_matches("Cyberpunk 2077", "Cyberpunk 2077"));
    assert!(name_matches("cyberpunk2077", "Cyberpunk 2077"));
    assert!(name_matches("Cyberpunk2077", "Cyberpunk2077.exe"));
    assert!(name_matches("The Witcher 3", "The Witcher 3: Wild Hunt"));
}

#[test]
fn name_matches_rejects_publishers_and_short_noise() {
    assert!(!name_matches("CD Projekt Red", "Cyberpunk 2077"));
    assert!(!name_matches("Saved Games", "Cyberpunk 2077"));
    assert!(!name_matches("GOG", "Cyberpunk 2077"));
    // Too short to be a safe substring match.
    assert!(!name_matches("Games", "Cyberpunk 2077"));
    // Non-game folders are excluded outright.
    assert!(!name_matches("cache", "Cyberpunk 2077"));
    // Sequels share a prefix and should still be recognised as the game.
    assert!(name_matches("MyGame", "My Game 2"));
}

#[test]
fn publisher_nested_layout_resolves_to_the_game_folder() {
    let keys = vec!["Cyberpunk 2077".to_string()];
    let (base, path, expected) = (
        "/home/test/Saved Games".to_string(),
        "/home/test/Saved Games/CD Projekt Red/Cyberpunk 2077/ManualSave-1/sav.dat",
        "/home/test/Saved Games/CD Projekt Red/Cyberpunk 2077".to_string(),
    );
    assert_eq!(get_save_root_for(path, &[base.clone()], &keys), Some(expected.clone()));
    assert_eq!(save_root_by_name(path, &[base], &keys), Some(expected));
}

#[test]
fn name_aware_root_still_falls_back_to_first_folder() {
    let keys = vec!["Cyberpunk 2077".to_string()];
    let (base, path, expected) = (
        "/home/test/Documents".to_string(),
        "/home/test/Documents/SomeUnknownGame/saves/slot1.dat",
        "/home/test/Documents/SomeUnknownGame".to_string(),
    );
    assert_eq!(get_save_root_for(path, &[base.clone()], &keys), Some(expected));
    // …but the lock-free fallback refuses to claim an unrelated game's write.
    assert_eq!(save_root_by_name(path, &[base], &keys), None);
}

#[test]
fn save_root_by_name_ignores_paths_outside_every_base() {
    let keys = vec!["Cyberpunk 2077".to_string()];
    let base = "/home/test/Saved Games".to_string();
    let path = "/mnt/games/Cyberpunk 2077/saves/sav.dat";
    assert_eq!(save_root_by_name(path, &[base], &keys), None);
}

#[test]
fn save_root_by_name_needs_a_name_key() {
    let path = "/home/test/Saved Games/Cyberpunk 2077/sav.dat";
    let base = "/home/test/Saved Games".to_string();
    assert_eq!(save_root_by_name(path, &[base], &[]), None);
}

#[test]
fn is_descendant_true_when_target_equals_ancestor() {
    let system = System::new();
    assert!(is_descendant(&system, 4321, 4321));
}

#[test]
fn is_descendant_false_for_unknown_pids() {
    let system = System::new(); // no process table loaded -> process() returns None
    assert!(!is_descendant(&system, 99_999_999, 1));
    assert!(!is_descendant(&system, 1, 99_999_999));
}

#[test]
fn pid_is_descendant_of_self_is_true() {
    let mut system = System::new();
    assert!(pid_is_descendant_of(&mut system, 4321, 4321));
}

#[test]
fn pid_is_descendant_of_false_for_unknown_pids() {
    // Unknown PIDs can't be refreshed -> the climb stops -> not a descendant.
    let mut system = System::new();
    assert!(!pid_is_descendant_of(&mut system, 99_999_999, 1));
}

// ----- backups -----

#[test]
fn manual_snapshot_names_list_back() {
    let name = manual_backup_file_name("20240101_120000", Some("  My Save  "));
    assert_eq!(name, "manual_20240101_120000_My%20Save.zip");
    let snap = parse_backup_snapshot(&name).unwrap();
    assert_eq!(snap.custom_name.as_deref(), Some("My Save"));
    assert_eq!(snap.timestamp, "2024-01-01 12:00:00");
    assert!(!snap.is_auto);
    assert_eq!(manual_backup_file_name("20240101_120000", Some("   ")), "manual_20240101_120000.zip");
    assert_eq!(manual_backup_file_name("20240101_120000", None), "manual_20240101_120000.zip");
    assert_eq!(auto_backup_file_name("20240101_120000"), "auto_20240101_120000.zip");
}

#[test]
fn auto_snapshot_names_list_back() {
    let name = auto_backup_file_name("20240102_030405");
    let snap = parse_backup_snapshot(&name).unwrap();
    assert!(snap.is_auto);
    assert_eq!(snap.timestamp, "2024-01-02 03:04:05");
    assert_eq!(snap.custom_name, None);
}

fn bfile(path: &str, modified: Option<i128>, size: Option<u64>) -> BackupFile {
    BackupFile { path: path.to_string(), is_file: true, modified, size }
}

#[test]
fn pruning_removes_the_oldest_automatic_snapshots() {
    let files = vec![
        bfile("/b/auto_3.zip", Some(30), Some(1)),
        bfile("/b/manual_1.zip", Some(1), Some(1)),
        bfile("/b/auto_1.zip", Some(10), Some(1)),
        bfile("/b/auto_2.ZIP", Some(5), Some(1)),
        bfile("/b/auto_4.zip", Some(40), Some(1)),
        bfile("/b/auto_x.zip", None, Some(1)),
        bfile("/b/auto_2.zip", Some(20), Some(1)),
    ];
    assert_eq!(backups_to_prune(&files, 2), vec![2, 6]);
    assert_eq!(backups_to_prune(&files, 4), Vec::<usize>::new());
    assert_eq!(backups_to_prune(&files, 0), vec![2, 6, 0, 4]);
}

#[test]
fn snapshots_list_newest_first() {
    let files = vec![
        bfile("/b/auto_20240101_120000.zip", None, Some(10)),
        bfile("/b/manual_20240301_090000_Boss.zip", None, Some(20)),
        bfile("/b/notes.txt", None, Some(1)),
        bfile("/b/auto_20240201_120000.zip", None, None),
    ];
    let snaps = list_snapshots(&files);
    let got: Vec<(&str, u64)> = snaps.iter().map(|s| (s.name.as_str(), s.size_bytes)).collect();
    assert_eq!(got, vec![("manual_20240301_090000_Boss.zip", 20), ("auto_20240101_120000.zip", 10)]);
    assert_eq!(snaps[0].custom_name.as_deref(), Some("Boss"));
}

fn snap(name: &str, timestamp: &str) -> BackupSnapshot {
    BackupSnapshot { name: name.to_string(), timestamp: timestamp.to_string(), size_bytes: 1, is_auto: true, custom_name: None }
}

#[test]
fn backup_summaries_name_each_game() {
    let games = vec![sample_game("1", "Portal")];
    let out = backup_summaries(
        &games,
        vec![
            ("1".to_string(), vec![snap("a.zip", "2024-01-01 00:00:00"), snap("b.zip", "2024-03-01 00:00:00")]),
            ("7".to_string(), vec![snap("c.zip", "2024-02-01 00:00:00")]),
        ],
    );
    let got: Vec<(&str, &str, &str)> = out.iter().map(|s| (s.game_id.as_str(), s.game_name.as_str(), s.name.as_str())).collect();
    assert_eq!(got, vec![("1", "Portal", "b.zip"), ("7", "7", "c.zip"), ("1", "Portal", "a.zip")]);
}

#[test]
fn backup_names_and_ids_cannot_escape() {
    assert!(check_backup_name("auto_1.zip").is_ok());
    assert_eq!(check_backup_name("../x.zip").unwrap_err(), "Invalid backup name: path traversal characters detected");
    assert!(check_backup_name("a/b.zip").is_err());
    assert!(check_backup_name("a\\b.zip").is_err());
    assert_eq!(check_game_id("..").unwrap_err(), "Invalid game id: path traversal characters detected");
    assert!(check_game_id("1700000000000").is_ok());
}

// ----- archives -----

fn ok_names(v: &[&str]) -> Vec<Result<String, String>> {
    v.iter().map(|s| Ok(s.to_string())).collect()
}

#[test]
fn extraction_strips_a_single_wrapping_folder() {
    let (plan, err) = extraction_plan(&ok_names(&["DeathStranding2/", "DeathStranding2/savegame.dat", "DeathStranding2/sub/config.ini"]));
    assert_eq!(err, None);
    let got: Vec<(usize, Vec<String>, bool)> = plan.into_iter().map(|e| (e.index, e.parts, e.is_dir)).collect();
    assert_eq!(got, vec![(1, strings(&["savegame.dat"]), false), (2, strings(&["sub", "config.ini"]), false)]);
}

#[test]
fn extraction_keeps_mixed_top_levels() {
    let (plan, err) = extraction_plan(&ok_names(&["root_save.dat", "sub/", "sub/other.dat"]));
    assert_eq!(err, None);
    let got: Vec<(usize, Vec<String>, bool)> = plan.into_iter().map(|e| (e.index, e.parts, e.is_dir)).collect();
    assert_eq!(
        got,
        vec![(0, strings(&["root_save.dat"]), false), (1, strings(&["sub"]), true), (2, strings(&["sub", "other.dat"]), false)]
    );
}

#[test]
fn extraction_refuses_traversal() {
    let (plan, err) = extraction_plan(&ok_names(&["../../evil.txt"]));
    assert!(plan.is_empty());
    assert_eq!(err.as_deref(), Some("Backup contains an unsafe path: ../../evil.txt"));
    let (plan, err) = extraction_plan(&ok_names(&["ok.txt", "..\\evil.txt", "later.txt"]));
    assert_eq!(plan.len(), 1);
    assert_eq!(err.as_deref(), Some("Backup contains an unsafe path: ..\\evil.txt"));
    let (_, err) = extraction_plan(&ok_names(&["/etc/passwd"]));
    assert!(err.is_some());
    let (plan, err) = extraction_plan(&vec![Ok("a.txt".to_string()), Err("bad entry".to_string())]);
    assert_eq!((plan.len(), err.as_deref()), (1, Some("bad entry")));
}

#[test]
fn archive_entry_names_use_forward_slashes() {
    assert_eq!(zip_entry("sub\\a.txt", true).as_deref(), Some("sub/a.txt"));
    assert_eq!(zip_entry("sub", false).as_deref(), Some("sub"));
    assert_eq!(zip_entry("", false), None);
    assert!(excluded_from_library_backup("backups/123/auto_1.zip"));
    assert!(excluded_from_library_backup("Saves/x.zip"));
    assert!(!excluded_from_library_backup("backups/123/notes.txt"));
    assert!(!excluded_from_library_backup("games.json"));
    assert!(!excluded_from_library_backup("wallpapers/x.zip"));
}

#[test]
fn temporary_sibling_sits_next_to_the_save() {
    assert_eq!(
        temporary_sibling("/home/u/saves/Game", "restore_staging", "20240101_120000_123").unwrap(),
        "/home/u/saves/.Game_silo_restore_staging_20240101_120000_123"
    );
    assert_eq!(temporary_sibling("/", "p", "s").unwrap_err(), "Save folder has no parent directory");
}

// ----- places -----

#[test]
fn linux_watch_candidates_default_under_home() {
    assert_eq!(
        linux_watch_candidates(Some("/home/u"), None, None),
        strings(&[
            "/home/u/.local/share",
            "/home/u/.config",
            "/home/u/Documents",
            "/home/u/Saved Games",
            "/home/u/.local/share/Steam/steamapps/compatdata",
            "/home/u/.var/app/com.valvesoftware.Steam/.local/share/Steam/steamapps/compatdata",
            "/home/u/.wine/drive_c/users",
        ])
    );
    assert_eq!(linux_watch_candidates(Some("/h"), Some("/data"), Some("/cfg"))[4], "/data/Steam/steamapps/compatdata");
    assert!(linux_watch_candidates(None, Some("/data"), None).is_empty());
}

#[test]
fn windows_watch_candidates_list_the_profile_folders() {
    assert_eq!(
        windows_watch_candidates(Some("R"), Some("L"), Some("U"), None),
        strings(&["R", "L", "L/LocalLow", "U/Saved Games", "U/Documents"])
    );
    assert_eq!(windows_watch_candidates(None, None, Some("U"), Some("D")), strings(&["U/Saved Games", "D"]));
}

#[test]
fn watcher_base_dirs_cover_the_save_locations() {
    let dirs = watcher_base_dirs(Some("/l"), None, Some("/c"), Some("/d"), Some("/h"), false);
    assert_eq!(dirs.len(), 9);
    assert_eq!(dirs[3], "/d/My Games");
    assert_eq!(watcher_base_dirs(None, None, None, None, Some("/h"), true), strings(&["/h/Saved Games"]));
}

#[test]
fn protected_folders_are_refused() {
    let dirs = linux_protected_dirs(Some("/home/u"));
    assert_eq!(dirs.len(), 21);
    assert_eq!(dirs[14], "/home/u");
    assert!(is_protected_dir(false, None, &vec![]));
    assert!(!is_protected_dir(true, None, &vec![Some("/home/u".to_string())]));
    assert!(is_protected_dir(true, Some("/home/u"), &vec![None, Some("/home/u".to_string())]));
    assert!(!is_protected_dir(true, Some("/home/u/Games/x"), &vec![Some("/home/u".to_string())]));
}

#[test]
fn uninstallers_are_looked_for_next_to_the_game() {
    assert_eq!(
        uninstaller_candidates(&Some("/g/x/game.exe".to_string())),
        strings(&["/g/x/unins000.exe", "/g/x/uninstall.exe"])
    );
    assert!(uninstaller_candidates(&None).is_empty());
    assert_eq!(game_folder(&Some("/g/x/game.exe".to_string())).as_deref(), Some("/g/x"));
    assert_eq!(game_folder(&None), None);
}

// ----- fonts -----

#[test]
fn linux_fonts_are_unique_and_sorted() {
    let fonts = linux_fonts("Arial,Helvetica\nRoboto\n  \nZed , Arial\n");
    assert_eq!(
        fonts,
        strings(&["Arial", "DejaVu Sans", "Helvetica", "Liberation Sans", "Noto Sans", "Roboto", "Ubuntu", "Zed"])
    );
    assert_eq!(linux_fonts("").len(), 5);
}

#[test]
fn windows_fonts_are_sorted_with_a_fallback() {
    assert_eq!(windows_fonts("B\r\nA\r\n\r\nA\r\n"), strings(&["A", "A", "B"]));
    assert_eq!(windows_fonts(""), strings(&["Arial"]));
    assert_eq!(windows_fonts("  \n"), strings(&["Arial"]));
}

// ----- settings -----

#[test]
fn defaults_have_updates_on_launch_enabled() {
    let s = Settings::default();
    assert!(s.check_updates_on_launch);
    assert_eq!(s.sgdb_api_key, None);
}

fn env(pairs: &[(&str, Option<&str>)]) -> Vec<(String, Option<String>)> {
    pairs.iter().map(|(k, v)| (k.to_string(), v.map(|x| x.to_string()))).collect()
}

#[test]
fn expand_env_vars_replaces_set_names() {
    let vals = env(&[("USERPROFILE", Some("C:\\Users\\ana"))]);
    assert_eq!(expand_env_vars("%USERPROFILE%\\Documents", &vals), "C:\\Users\\ana\\Documents");
}

#[test]
fn expand_env_vars_keeps_unset_and_unclosed_references() {
    let vals = env(&[("NOPE", None)]);
    assert_eq!(expand_env_vars("%NOPE%\\x", &vals), "%NOPE%\\x");
    assert_eq!(expand_env_vars("100%", &vals), "100%");
    assert_eq!(expand_env_vars("%MISSING%", &Vec::new()), "%MISSING%");
}

#[test]
fn expand_env_vars_skips_empty_names_and_rescans_after_a_miss() {
    let vals = env(&[("A", Some("1")), ("X", None), ("Y", Some("2"))]);
    assert_eq!(expand_env_vars("%%A%", &vals), "%1");
    assert_eq!(expand_env_vars("%X%Y%", &vals), "%X2");
}

#[test]
fn expand_env_vars_copies_other_text_byte_by_byte() {
    assert_eq!(expand_env_vars("é", &Vec::new()), "\u{c3}\u{a9}");
    assert_eq!(expand_env_vars("plain", &Vec::new()), "plain");
}

#[test]
fn env_var_keys_lists_each_reference() {
    assert_eq!(env_var_keys("%A%%B%"), vec!["A".to_string(), "B".to_string()]);
    assert_eq!(env_var_keys("%X%Y%"), vec!["X".to_string(), "Y".to_string()]);
    assert_eq!(env_var_keys("none"), Vec::<String>::new());
}

#[test]
fn similarity_score_is_full_for_identical_token_sets() {
    let o = token_overlap("Red Dead Redemption 2", "red dead redemption 2");
    assert_eq!(similarity_score(&o, 0), 100);
    assert_eq!(similarity_score(&token_overlap("7", "7"), 3), 100);
}

#[test]
fn similarity_score_is_zero_without_tokens() {
    assert_eq!(similarity_score(&token_overlap("", "Witcher 3"), 77), 0);
    assert_eq!(similarity_score(&token_overlap("A", "A"), 77), 0);
}

#[test]
fn similarity_score_takes_the_rounded_overlap_capped_at_100() {
    let o = token_overlap("Red Dead Redemption 2", "Red Dead Redemption");
    assert_eq!((o.shared, o.query_tokens, o.candidate_tokens, o.identical), (3, 4, 3, false));
    assert_eq!(similarity_score(&o, 86), 86);
    assert_eq!(similarity_score(&o, 250), 100);
}

/// The similarity score as the launcher computes it: the verified token
/// comparison and score, with the overlap percentage rounded through `f32`.
fn name_similarity(query: &str, candidate: &str) -> u8 {
    let o = token_overlap(query, candidate);
    let total = o.query_tokens + o.candidate_tokens;
    let rounded = if total == 0 { 0 } else { (((2 * o.shared) as f32 / total as f32) * 100.0).round() as u8 };
    similarity_score(&o, rounded)
}

#[test]
fn name_similarity_identical_is_100() {
    assert_eq!(name_similarity("Red Dead Redemption 2", "Red Dead Redemption 2"), 100);
    assert_eq!(name_similarity("Portal", "Portal"), 100);
}

#[test]
fn name_similarity_is_case_insensitive() {
    assert_eq!(name_similarity("WITCHER 3", "witcher 3"), 100);
    assert_eq!(name_similarity("Witcher 3", "WITCHER 3"), 100);
}

#[test]
fn name_similarity_empty_is_0() {
    assert_eq!(name_similarity("", "Witcher 3"), 0);
    assert_eq!(name_similarity("Witcher 3", ""), 0);
    assert_eq!(name_similarity("", ""), 0);
}

#[test]
fn name_similarity_sequel_vs_base_is_high_but_less_than_100() {
    let score = name_similarity("Red Dead Redemption 2", "Red Dead Redemption");
    assert!(score >= 60 && score < 100, "got {}", score);
}

#[test]
fn name_similarity_single_char_tokens() {
    assert_eq!(name_similarity("A", "A"), 0);
    assert_eq!(name_similarity("7", "7"), 100);
}

#[test]
fn restore_failures_after_staging_discard_it() {
    let s = restore_next(RestoreStage::PrepareBackups, false, "denied");
    assert!(matches!(&s, RestoreStage::DiscardStaging(m) if m == "Could not prepare backup folder: denied"));
    let s = restore_next(s, true, "");
    assert!(matches!(&s, RestoreStage::Done(Err(m)) if m == "Could not prepare backup folder: denied"));
    let s = restore_next(RestoreStage::NamePrevious, false, "no name");
    assert!(matches!(&s, RestoreStage::DiscardStaging(m) if m == "no name"));
}

#[test]
fn restore_failure_after_moving_aside_puts_the_save_back() {
    let s = restore_next(RestoreStage::MoveAside, true, "");
    assert!(matches!(s, RestoreStage::Apply { had_existing: true }));
    let s = restore_next(s, false, "busy");
    assert!(matches!(&s, RestoreStage::PutBack(m) if m == "Could not apply restored save: busy"));
    let s = restore_next(s, true, "");
    assert!(matches!(&s, RestoreStage::DiscardStaging(_)));
    let s = restore_next(s, true, "");
    assert!(matches!(&s, RestoreStage::Done(Err(m)) if m == "Could not apply restored save: busy"));
}

#[test]
fn restore_before_staging_fails_directly() {
    let s = restore_next(RestoreStage::CheckParent, false, "");
    assert!(matches!(&s, RestoreStage::Done(Err(m)) if m == "Save folder has no parent directory"));
}

#[test]
fn detection_needed_follows_the_folder_check() {
    assert!(detection_needed(None, false));
    assert!(detection_needed(None, true));
    assert!(detection_needed(Some("/games/saves"), false));
    assert!(!detection_needed(Some("/games/saves"), true));
}

#[test]
fn answered_urls_keeps_those_that_answered_in_order() {
    let urls = vec!["a".to_string(), "b".to_string(), "c".to_string()];
    assert_eq!(answered_urls(&urls, &vec![true, false, true]), vec!["a".to_string(), "c".to_string()]);
    assert_eq!(answered_urls(&urls, &vec![false, false, false]), Vec::<String>::new());
}

#[test]
fn gog_registry_entry_needs_a_name() {
    assert!(gog_registry_entry(Some("GOG.com"), "Witcher", None));
    assert!(!gog_registry_entry(Some("GOG.com"), "   ", None));
    assert!(!gog_registry_entry(Some("Valve"), "Portal", Some("C:\\Games\\Portal")));
}

#[test]
fn vdf_escaped_token_reads_back() {
    let text = "a{ }\\b\"c";
    let escaped = text.replace('\\', "\\\\").replace('"', "\\\"");
    assert_eq!(vdf_tokenize(&format!("\"{}\"", escaped)), vec![text.to_string()]);
}

#[test]
fn name_matches_counts_characters_for_the_short_side() {
    assert!(!name_matches("äbc", "äbcdef"));
    assert!(name_matches("äbcd", "äbcdef"));
}

#[test]
fn archive_names_extract_back_to_their_paths() {
    let names: Vec<Result<String, String>> = vec![("a.sav", true), ("slot", false), ("slot\\b.sav", true)]
        .into_iter()
        .map(|(rel, is_file)| Ok(zip_entry(rel, is_file).unwrap()))
        .collect();
    let (plan, err) = extraction_plan(&names);
    assert_eq!(err, None);
    let got: Vec<(usize, Vec<String>)> = plan.into_iter().map(|e| (e.index, e.parts)).collect();
    assert_eq!(got, vec![(0, strings(&["a.sav"])), (1, strings(&["slot"])), (2, strings(&["slot", "b.sav"]))]);
}
