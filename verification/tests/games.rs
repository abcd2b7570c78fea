use std::collections::HashSet;

use xedit::dialect::{DialectFamily, GameId};
use xedit::element::IntegerSize;
use xedit::games::{DefinitionRegistry, FieldDef, FieldType, RecordDef, SubrecordDef};
use xedit::signature::Signature;

#[test]
fn game_id_short_name_round_trip() {
    let all_games = [
        (GameId::Morrowind, "TES3"),
        (GameId::Oblivion, "TES4"),
        (GameId::Fallout3, "FO3"),
        (GameId::FalloutNV, "FNV"),
        (GameId::SkyrimSE, "SSE"),
        (GameId::Fallout4, "FO4"),
        (GameId::Fallout76, "FO76"),
        (GameId::Starfield, "SF1"),
    ];
    for (game_id, expected_short_name) in &all_games {
        assert_eq!(
            game_id.short_name(),
            *expected_short_name,
            "GameId::{:?} should have short_name '{}'",
            game_id,
            expected_short_name
        );
    }
}

#[test]
fn game_id_header_signature_correct() {
    assert_eq!(GameId::Morrowind.header_signature(), Signature::TES3());
    assert_eq!(GameId::Oblivion.header_signature(), Signature::TES4());
    assert_eq!(GameId::Fallout3.header_signature(), Signature::TES4());
    assert_eq!(GameId::FalloutNV.header_signature(), Signature::TES4());
    assert_eq!(GameId::SkyrimSE.header_signature(), Signature::TES4());
    assert_eq!(GameId::Fallout4.header_signature(), Signature::TES4());
    assert_eq!(GameId::Fallout76.header_signature(), Signature::TES4());
    assert_eq!(GameId::Starfield.header_signature(), Signature::TES4());
}

#[test]
fn game_id_dialect_family_correct() {
    assert_eq!(GameId::Morrowind.dialect_family(), DialectFamily::TES3);
    assert_eq!(GameId::Oblivion.dialect_family(), DialectFamily::TES4Plus);
    assert_eq!(GameId::Fallout3.dialect_family(), DialectFamily::TES4Plus);
    assert_eq!(GameId::FalloutNV.dialect_family(), DialectFamily::TES4Plus);
    assert_eq!(GameId::SkyrimSE.dialect_family(), DialectFamily::TES4Plus);
    assert_eq!(GameId::Fallout4.dialect_family(), DialectFamily::TES4Plus);
    assert_eq!(GameId::Fallout76.dialect_family(), DialectFamily::TES4Plus);
    assert_eq!(GameId::Starfield.dialect_family(), DialectFamily::TES4Plus);
}

#[test]
fn game_id_equality_and_hash() {
    let mut set = HashSet::new();
    set.insert(GameId::SkyrimSE);
    set.insert(GameId::Fallout4);
    set.insert(GameId::SkyrimSE);
    assert_eq!(set.len(), 2, "HashSet should deduplicate GameId values");
    assert!(set.contains(&GameId::SkyrimSE));
    assert!(set.contains(&GameId::Fallout4));
    assert!(!set.contains(&GameId::Morrowind));
}

fn def(sig: &[u8; 4], name: &str, members: Vec<SubrecordDef>) -> RecordDef {
    RecordDef { signature: Signature::from_bytes(sig), name: name.to_string(), members }
}

fn weapon_def() -> RecordDef {
    let fields: Vec<FieldDef> = (0..29)
        .map(|i| FieldDef {
            name: format!("Field{}", i),
            field_type: FieldType::Integer { size: IntegerSize::U32, enum_def: None, flags_def: None },
        })
        .collect();
    def(
        b"WEAP",
        "Weapon",
        vec![SubrecordDef { signature: Signature::from_bytes(b"DNAM"), name: "Data".to_string(), fields, required: true }],
    )
}

#[test]
fn registry_register_get_and_replace() {
    let mut reg = DefinitionRegistry::new();
    assert!(reg.is_empty());
    reg.register(GameId::SkyrimSE, weapon_def());
    reg.register(GameId::SkyrimSE, def(b"NPC_", "Non-Player Character", vec![]));
    assert_eq!(reg.len(), 2);
    let weap = reg.get(GameId::SkyrimSE, Signature::from_bytes(b"WEAP")).expect("WEAP");
    assert_eq!(weap.name, "Weapon");
    let dnam = weap
        .members
        .iter()
        .find(|s| s.signature == Signature::from_bytes(b"DNAM") && s.name == "Data")
        .expect("DNAM");
    assert_eq!(dnam.fields.len(), 29);
    assert!(reg.get(GameId::Fallout4, Signature::from_bytes(b"WEAP")).is_none());

    reg.register(GameId::SkyrimSE, def(b"WEAP", "Weapon2", vec![]));
    assert_eq!(reg.len(), 2);
    assert_eq!(reg.get(GameId::SkyrimSE, Signature::from_bytes(b"WEAP")).unwrap().name, "Weapon2");
}

#[test]
fn registry_games_are_independent() {
    let mut reg = DefinitionRegistry::default();
    reg.load_sse_definitions(vec![weapon_def(), def(b"ARMO", "Armor", vec![])]);
    reg.load_fo4_definitions(vec![def(b"WEAP", "Weapon", vec![]), def(b"WEAP", "Weapon (later)", vec![])]);
    let sse: HashSet<Signature> = reg.signatures_for_game(GameId::SkyrimSE).into_iter().collect();
    let fo4 = reg.signatures_for_game(GameId::Fallout4);
    assert_eq!(sse.len(), 2);
    assert_eq!(fo4.len(), 1);
    assert_eq!(reg.len(), sse.len() + fo4.len());
    assert_eq!(reg.get(GameId::Fallout4, Signature::WEAP()).unwrap().name, "Weapon (later)");
    assert!(reg.signatures_for_game(GameId::Morrowind).is_empty());
}

#[test]
fn registry_loaders_use_their_game() {
    let loaders: Vec<(fn(&mut DefinitionRegistry, Vec<RecordDef>), GameId)> = vec![
        (DefinitionRegistry::load_sse_definitions, GameId::SkyrimSE),
        (DefinitionRegistry::load_fo4_definitions, GameId::Fallout4),
        (DefinitionRegistry::load_fo3_definitions, GameId::Fallout3),
        (DefinitionRegistry::load_fnv_definitions, GameId::FalloutNV),
        (DefinitionRegistry::load_tes4_definitions, GameId::Oblivion),
        (DefinitionRegistry::load_morrowind_definitions, GameId::Morrowind),
        (DefinitionRegistry::load_fo76_definitions, GameId::Fallout76),
        (DefinitionRegistry::load_starfield_definitions, GameId::Starfield),
    ];
    for (loader, game_id) in loaders {
        let mut reg = DefinitionRegistry::new();
        loader(&mut reg, vec![def(b"GMST", "Game Setting", vec![])]);
        assert_eq!(reg.signatures_for_game(game_id), vec![Signature::GMST()]);
        assert_eq!(reg.len(), 1);
    }
}
