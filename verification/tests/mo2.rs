use xedit::dialect::GameId;
use xedit::load_order::{LoadOrder, LoadOrderError};
use xedit::mo2::config::{
    convert_wine_path, game_name_to_id, list_profiles, parse_byte_array, parse_ini, Mo2Config,
    PathStatus,
};
use xedit::mo2::profile::{
    parse_archives_content, parse_loadorder_content, parse_modlist_content, strip_plugin_extension,
    Mod, ModState, Profile,
};
use xedit::mo2::vfs::{normalize_path, FileSource, VfsStatistics, VirtualFileSystem};

#[test]
fn test_parse_ini_extracts_general_section() {
    let ini = "\
[General]
gameName=Skyrim Special Edition
gamePath=@ByteArray(Z:\\\\home\\\\luke\\\\Games\\\\SSE)
selected_profile=@ByteArray(Default)
[Settings]
other_key=other_value
";
    let values = parse_ini(ini);
    assert_eq!(values.get("gameName").unwrap(), "Skyrim Special Edition");
    assert_eq!(values.get("gamePath").unwrap(), "@ByteArray(Z:\\\\home\\\\luke\\\\Games\\\\SSE)");
    assert_eq!(values.get("selected_profile").unwrap(), "@ByteArray(Default)");
    assert!(values.get("other_key").is_none());
}

#[test]
fn test_parse_byte_array_extracts_inner() {
    assert_eq!(
        parse_byte_array("@ByteArray(Masterstroke (Creature Profile))"),
        "Masterstroke (Creature Profile)"
    );
    assert_eq!(parse_byte_array("plain value"), "plain value");
    assert_eq!(parse_byte_array("@ByteArray()"), "");
    assert_eq!(parse_byte_array("@ByteArray(Default)"), "Default");
}

#[test]
fn test_convert_wine_path_z_drive() {
    assert_eq!(convert_wine_path("Z:\\\\home\\\\luke\\\\Games"), "/home/luke/Games");
    assert_eq!(convert_wine_path("Z:/home/luke/Games"), "/home/luke/Games");
}

#[test]
fn test_convert_wine_path_native() {
    assert_eq!(convert_wine_path("/home/luke/Games"), "/home/luke/Games");
}

#[test]
fn test_game_name_to_id() {
    assert_eq!(game_name_to_id("Skyrim Special Edition"), Some(GameId::SkyrimSE));
    assert_eq!(game_name_to_id("Fallout 4"), Some(GameId::Fallout4));
    assert_eq!(game_name_to_id("Starfield"), Some(GameId::Starfield));
    assert_eq!(game_name_to_id("Oblivion"), Some(GameId::Oblivion));
    assert_eq!(game_name_to_id("Unknown Game"), None);
}

#[test]
fn parse_ini_ignores_lines_without_equals_and_trims() {
    let ini = "[General]\n  gameName =  Fallout 4  \nnoequals\n[general]\nx=1\n";
    let values = parse_ini(ini);
    assert_eq!(values.get("gameName").unwrap(), "Fallout 4");
    assert!(values.get("noequals").is_none());
    assert!(values.get("x").is_none());
}

#[test]
fn mo2_config_from_ini_derives_paths() {
    let ini = "[General]\ngameName=Skyrim Special Edition\ngamePath=@ByteArray(Z:\\\\games\\\\SSE)\nselected_profile=@ByteArray(Default)\n";
    let config = Mo2Config::from_ini("/mo2", ini, vec!["Default".to_string()]);
    assert_eq!(config.game_name, "Skyrim Special Edition");
    assert_eq!(config.game_path, "/games/SSE");
    assert_eq!(config.selected_profile, "Default");
    assert_eq!(config.mods_path, "/mo2/mods");
    assert_eq!(config.profile_path, "/mo2/profiles/Default");
    assert_eq!(config.data_path, "/games/SSE/Data");
    assert_eq!(config.game_id(), Some(GameId::SkyrimSE));
}

#[test]
fn mo2_config_validation() {
    let mut config = Mo2Config::from_ini("/mo2", "[General]\ngameName=Oblivion\n", vec![]);
    config.set_profile("Alt");
    assert_eq!(config.selected_profile, "Alt");
    assert_eq!(config.profile_path, "/mo2/profiles/Alt");
    let all = PathStatus { mods_exists: true, profile_exists: true, data_exists: false, game_exists: true };
    assert!(config.is_valid(&all));
    assert!(config.validation_errors(&all).is_empty());
    let none = PathStatus { mods_exists: false, profile_exists: false, data_exists: false, game_exists: false };
    assert!(!config.is_valid(&none));
    let errors = config.validation_errors(&none);
    assert_eq!(errors.len(), 3);
    assert_eq!(errors[0], "Mods folder not found: \"/mo2/mods\"");
    assert_eq!(errors[1], "Profile folder not found: \"/mo2/profiles/Alt\"");
    assert!(errors[2].starts_with("Game Data folder not found: "));
}

#[test]
fn test_parse_modlist_enabled_disabled() {
    let content = "+EnabledMod\n-DisabledMod\n*Separator\n+AnotherEnabled\n";
    let mods = parse_modlist_content(content, "/mods");

    assert_eq!(mods.len(), 4);
    assert_eq!(mods[0].name, "EnabledMod");
    assert_eq!(mods[0].state, ModState::Enabled);
    assert_eq!(mods[0].priority, 0);

    assert_eq!(mods[1].name, "DisabledMod");
    assert_eq!(mods[1].state, ModState::Disabled);
    assert_eq!(mods[1].priority, 1);

    assert_eq!(mods[2].name, "Separator");
    assert_eq!(mods[2].state, ModState::Disabled);
    assert_eq!(mods[2].priority, 2);

    assert_eq!(mods[3].name, "AnotherEnabled");
    assert_eq!(mods[3].state, ModState::Enabled);
    assert_eq!(mods[3].priority, 3);
}

#[test]
fn test_parse_modlist_paths() {
    let content = "+MyMod\n";
    let mods = parse_modlist_content(content, "/home/user/MO2/mods");
    assert_eq!(mods[0].path, "/home/user/MO2/mods/MyMod");
}

#[test]
fn test_parse_modlist_empty_lines() {
    let content = "\n+Mod1\n\n+Mod2\n\n";
    let mods = parse_modlist_content(content, "/mods");
    assert_eq!(mods.len(), 2);
}

#[test]
fn test_parse_loadorder_with_comments_and_stars() {
    let content = "# This file was auto-generated\n*Skyrim.esm\nUpdate.esm\n*Dawnguard.esm\nMyMod.esp\n";
    let plugins = parse_loadorder_content(content);

    assert_eq!(plugins.len(), 4);
    assert_eq!(plugins[0], "Skyrim.esm");
    assert_eq!(plugins[1], "Update.esm");
    assert_eq!(plugins[2], "Dawnguard.esm");
    assert_eq!(plugins[3], "MyMod.esp");
}

#[test]
fn test_parse_loadorder_empty() {
    let content = "# comment only\n\n";
    let plugins = parse_loadorder_content(content);
    assert!(plugins.is_empty());
}

#[test]
fn test_strip_plugin_extension() {
    assert_eq!(strip_plugin_extension("Skyrim.esm"), "Skyrim");
    assert_eq!(strip_plugin_extension("MyMod.esp"), "MyMod");
    assert_eq!(strip_plugin_extension("Light.esl"), "Light");
    assert_eq!(strip_plugin_extension("NoExtension"), "NoExtension");
}

#[test]
fn parse_archives_keeps_non_blank_trimmed_lines() {
    let archives = parse_archives_content("# list\n\n  Extra.bsa  \nMore - Textures.bsa\n");
    assert_eq!(
        archives,
        vec!["# list".to_string(), "Extra.bsa".to_string(), "More - Textures.bsa".to_string()]
    );
}

#[test]
fn profile_enabled_mods_keeps_order() {
    let mods = parse_modlist_content("+A\n-B\n+C\n", "/m");
    let profile = Profile {
        profile_path: "/p".to_string(),
        game_data_dir: "/g/Data".to_string(),
        mods,
        plugin_order: vec![],
        additional_archives: vec![],
    };
    let enabled: Vec<&Mod> = profile.enabled_mods();
    let names: Vec<&str> = enabled.iter().map(|m| m.name.as_str()).collect();
    assert_eq!(names, vec!["A", "C"]);
    assert_eq!(enabled[1].priority, 2);
}

#[test]
fn test_normalize_path_lowercases() {
    assert_eq!(normalize_path("Textures/Foo/Bar.dds"), "textures/foo/bar.dds");
}

#[test]
fn test_normalize_path_backslashes() {
    assert_eq!(normalize_path("textures\\foo\\bar.dds"), "textures/foo/bar.dds");
}

#[test]
fn test_normalize_path_mixed() {
    assert_eq!(normalize_path("Meshes\\Armor/Iron\\Shield.nif"), "meshes/armor/iron/shield.nif");
}

#[test]
fn test_file_source_priority() {
    let vanilla = FileSource::Vanilla("/data/test.esp".to_string());
    assert_eq!(vanilla.priority(), 0);

    let modded = FileSource::Mod {
        mod_name: "TestMod".to_string(),
        mod_priority: 5,
        file_path: "/mods/TestMod/test.esp".to_string(),
    };
    assert_eq!(modded.priority(), 5);
    assert_eq!(modded.physical_path(), "/mods/TestMod/test.esp");
    assert_eq!(vanilla.physical_path(), "/data/test.esp");
}

#[test]
fn vfs_statistics_display() {
    let stats = VfsStatistics { total_files: 10, vanilla_files: 4, mod_files: 6 };
    assert_eq!(stats.to_display_string(), "VFS Stats: 10 total (4 vanilla, 6 from mods)");
    let empty = VfsStatistics::default();
    assert_eq!(empty.to_display_string(), "VFS Stats: 0 total (0 vanilla, 0 from mods)");
}

#[test]
fn list_profiles_skips_hidden_and_sorts() {
    let names = vec!["Zeta".to_string(), ".git".to_string(), "Alpha".to_string(), "Default".to_string()];
    assert_eq!(list_profiles(names), vec!["Alpha".to_string(), "Default".to_string(), "Zeta".to_string()]);
    assert!(list_profiles(vec![]).is_empty());
}

fn sample_profile() -> Profile {
    Profile {
        profile_path: "/mo2/profiles/Default".to_string(),
        game_data_dir: "/game/Data".to_string(),
        mods: parse_modlist_content("+Low\n-Off\n+High\n", "/mo2/mods"),
        plugin_order: vec!["Skyrim.esm".to_string(), "Cool.esp".to_string()],
        additional_archives: vec!["Extra.bsa".to_string()],
    }
}

#[test]
fn plugin_search_paths_try_enabled_mods_highest_priority_first_then_data() {
    let p = sample_profile();
    assert_eq!(
        p.plugin_search_paths("Cool.esp"),
        vec!["/mo2/mods/High/Cool.esp", "/mo2/mods/Low/Cool.esp", "/game/Data/Cool.esp"]
    );
}

#[test]
fn bsa_search_paths_cover_every_probe() {
    let p = sample_profile();
    let paths = p.bsa_search_paths();
    assert_eq!(paths.len(), 2 * (2 + 3 * 2) + 2);
    assert_eq!(paths[0], "/game/Data/Skyrim.bsa");
    assert_eq!(paths[1], "/game/Data/Skyrim - Textures.bsa");
    assert_eq!(paths[2], "/mo2/mods/Low/Skyrim.esm");
    assert_eq!(paths[paths.len() - 1], "/mo2/mods/High/Extra.bsa");
}

#[test]
fn get_plugin_bsas_layers_vanilla_mods_and_archives() {
    let p = sample_profile();
    let existing: Vec<String> = vec![
        "/game/Data/Skyrim.bsa",
        "/game/Data/Skyrim - Textures.bsa",
        "/mo2/mods/High/Cool.esp",
        "/mo2/mods/High/Cool.bsa",
        "/mo2/mods/Low/Cool.bsa",
        "/mo2/mods/Off/Extra.bsa",
        "/mo2/mods/High/Extra.bsa",
    ]
    .into_iter()
    .map(String::from)
    .collect();
    let bsas = p.get_plugin_bsas(&existing);
    assert_eq!(
        bsas,
        vec![
            ("/game/Data/Skyrim.bsa".to_string(), "Vanilla".to_string(), 0),
            ("/game/Data/Skyrim - Textures.bsa".to_string(), "Vanilla".to_string(), 0),
            ("/mo2/mods/High/Cool.bsa".to_string(), "High".to_string(), 2),
            ("/mo2/mods/High/Extra.bsa".to_string(), "High".to_string(), 2),
        ]
    );
    assert!(p.get_plugin_bsas(&[]).is_empty());
}

#[test]
fn load_order_from_mo2_uses_the_configured_game() {
    let config = Mo2Config::from_ini("/mo2", "[General]\ngameName=Fallout 4\n", vec![]);
    let lo = LoadOrder::load_from_mo2(&config, vec![]).expect("known game");
    assert_eq!(lo.game_id, GameId::Fallout4);
    assert!(lo.plugins.is_empty());

    let unknown = Mo2Config::from_ini("/mo2", "[General]\ngameName=Daggerfall\n", vec![]);
    match LoadOrder::load_from_mo2(&unknown, vec![]) {
        Err(LoadOrderError::UnknownGame(name)) => assert_eq!(name, "Daggerfall"),
        Ok(_) => panic!("unknown game accepted"),
    }
}

#[test]
fn vfs_layers_vanilla_and_mods_by_priority() {
    let mods = parse_modlist_content("+Low\n+High\n", "/m");
    let low = mods[0].clone();
    let high = mods[1].clone();
    let profile = Profile {
        profile_path: "/p".to_string(),
        game_data_dir: "/g/Data".to_string(),
        mods,
        plugin_order: vec!["Skyrim.esm".to_string(), "Patch.esp".to_string(), "Missing.esp".to_string()],
        additional_archives: vec![],
    };
    let mut vfs = VirtualFileSystem::new(profile);
    vfs.index_vanilla_file("Skyrim.esm", "/g/Data/Skyrim.esm".to_string());
    vfs.index_vanilla_file("Textures\\Rock.dds", "/g/Data/Textures/Rock.dds".to_string());
    vfs.index_mod_file(&high, "textures/rock.DDS", "/m/High/textures/rock.DDS".to_string());
    // A lower priority mod does not replace a higher one.
    vfs.index_mod_file(&low, "textures/rock.dds", "/m/Low/textures/rock.dds".to_string());
    vfs.index_mod_file(&low, "Patch.esp", "/m/Low/Patch.esp".to_string());

    match vfs.resolve_file("TEXTURES/ROCK.dds") {
        Some(FileSource::Mod { mod_name, mod_priority, file_path }) => {
            assert_eq!(mod_name, "High");
            assert_eq!(*mod_priority, 1);
            assert_eq!(file_path, "/m/High/textures/rock.DDS");
        }
        other => panic!("unexpected {:?}", other),
    }
    assert!(vfs.resolve_file("meshes/none.nif").is_none());

    let stats = vfs.get_statistics();
    assert_eq!((stats.total_files, stats.vanilla_files, stats.mod_files), (3, 1, 2));

    assert_eq!(
        vfs.plugin_fallback_paths(),
        vec!["/g/Data/Skyrim.esm", "/g/Data/Patch.esp", "/g/Data/Missing.esp"]
    );
    assert_eq!(vfs.list_plugins(&[]), vec!["/g/Data/Skyrim.esm", "/m/Low/Patch.esp"]);
    assert_eq!(
        vfs.list_plugins(&["/g/Data/Missing.esp".to_string()]),
        vec!["/g/Data/Skyrim.esm", "/m/Low/Patch.esp", "/g/Data/Missing.esp"]
    );
    assert_eq!(vfs.profile().plugin_order.len(), 3);
}

#[test]
fn profile_load_from_file_contents() {
    let p = Profile::load(
        "/p".to_string(),
        "/mods",
        "/data".to_string(),
        "+A\n-B\n",
        Some("*Skyrim.esm\n# comment\nMod.esp\n"),
        None,
    );
    assert_eq!(p.profile_path, "/p");
    assert_eq!(p.game_data_dir, "/data");
    assert_eq!(p.mods.len(), 2);
    assert_eq!(p.mods[0].name, "A");
    assert_eq!(p.mods[0].state, ModState::Enabled);
    assert_eq!(p.mods[1].name, "B");
    assert_eq!(p.mods[1].state, ModState::Disabled);
    assert_eq!(p.plugin_order, vec!["Skyrim.esm".to_string(), "Mod.esp".to_string()]);
    assert!(p.additional_archives.is_empty());

    let q = Profile::load(
        "/p".to_string(),
        "/mods",
        "/data".to_string(),
        "",
        None,
        Some("Extra.bsa\n\n"),
    );
    assert!(q.mods.is_empty());
    assert!(q.plugin_order.is_empty());
    assert_eq!(q.additional_archives, vec!["Extra.bsa".to_string()]);
}
