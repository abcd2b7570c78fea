use std::path::Path;

use xedit::dialect::GameId;
use xedit::formid::FormId;
use xedit::group::{Group, GroupChild, GroupType};
use xedit::load_order::{FormIdContext, LoadOrder, MasterResolver, OverrideChain};
use xedit::plugin::Plugin;
use xedit::record::{Record, RecordFlags};
use xedit::signature::Signature;
use xedit::subrecord::Subrecord;

fn make_record(signature: Signature, form_id: u32, flags: u32, edid: Option<&str>) -> Record {
    let mut subrecords = Vec::new();
    if let Some(edid) = edid {
        let mut data = edid.as_bytes().to_vec();
        data.push(0);
        subrecords.push(Subrecord::new(Signature::EDID(), data));
    }
    Record {
        signature,
        flags: RecordFlags(flags),
        form_id: FormId::new(form_id),
        vc_info: 0,
        version: 0,
        unknown: 0,
        subrecords,
        raw_header: None,
        raw_compressed_data: None,
        raw_data: None,
        source_offset: None,
        modified: false,
    }
}

fn make_plugin(
    game_id: GameId,
    name: &str,
    header_flags: u32,
    masters: Vec<&str>,
    records: Vec<Record>,
) -> Plugin {
    let group = Group {
        group_type: GroupType::Top(Signature::WEAP()),
        stamp: 0,
        unknown: 0,
        children: records.into_iter().map(GroupChild::Record).collect(),
        raw_header: None,
        source_offset: None,
    };
    Plugin {
        game_id,
        file_path: Some(name.to_string()),
        header: make_record(Signature::TES4(), 0, header_flags, None),
        groups: vec![group],
        tes3_records: Vec::new(),
        masters: masters.into_iter().map(str::to_string).collect(),
        description: None,
        author: None,
        modified: false,
    }
}

fn plugin_name(plugin: &Plugin) -> &str {
    plugin
        .file_path
        .as_deref()
        .map(Path::new)
        .and_then(Path::file_name)
        .and_then(|p| p.to_str())
        .expect("plugin name")
}

#[test]
fn esm_sorts_before_esp() {
    let mut load_order = LoadOrder::new(GameId::SkyrimSE);
    load_order.add_plugin(make_plugin(GameId::SkyrimSE, "Mod.esp", 0, vec![], vec![]));
    load_order.add_plugin(make_plugin(GameId::SkyrimSE, "Base.esm", RecordFlags::ESM, vec![], vec![]));
    load_order.sort_load_order();
    assert_eq!(plugin_name(&load_order.plugins[0]), "Base.esm");
    assert_eq!(plugin_name(&load_order.plugins[1]), "Mod.esp");
}

#[test]
fn resolves_form_ids_through_master_lists() {
    let mut load_order = LoadOrder::new(GameId::SkyrimSE);
    let master_index = load_order.add_plugin(make_plugin(
        GameId::SkyrimSE,
        "Master.esm",
        RecordFlags::ESM,
        vec![],
        vec![make_record(Signature::WEAP(), 0x0000_1234, 0, Some("MASTER_WEAP"))],
    ));
    let child_index = load_order.add_plugin(make_plugin(
        GameId::SkyrimSE,
        "Child.esp",
        0,
        vec!["Master.esm"],
        vec![make_record(Signature::WEAP(), 0x0000_1234, 0, Some("CHILD_WEAP"))],
    ));
    load_order.sort_load_order();

    let resolved = load_order
        .resolve_form_id(child_index, FormId::new(0x0000_1234))
        .expect("resolved form id");
    assert_eq!(resolved.0, master_index);
    assert_eq!(resolved.1.raw(), 0x0000_1234);
}

#[test]
fn override_chain_is_in_load_order() {
    let mut load_order = LoadOrder::new(GameId::SkyrimSE);
    load_order.add_plugin(make_plugin(
        GameId::SkyrimSE,
        "Master.esm",
        RecordFlags::ESM,
        vec![],
        vec![make_record(Signature::WEAP(), 0x0000_1234, 0, Some("MASTER"))],
    ));
    load_order.add_plugin(make_plugin(
        GameId::SkyrimSE,
        "Patch.esp",
        0,
        vec!["Master.esm"],
        vec![make_record(Signature::WEAP(), 0x0000_1234, 0, Some("PATCH"))],
    ));
    load_order.sort_load_order();

    let overrides = load_order.find_overrides(FormId::new(0x0000_1234));
    assert_eq!(overrides.len(), 2);
    assert_eq!(overrides[0].1.editor_id(), Some("MASTER"));
    assert_eq!(overrides[1].1.editor_id(), Some("PATCH"));
}

#[test]
fn winning_override_is_last_plugin_version() {
    let mut load_order = LoadOrder::new(GameId::SkyrimSE);
    load_order.add_plugin(make_plugin(
        GameId::SkyrimSE,
        "Master.esm",
        RecordFlags::ESM,
        vec![],
        vec![make_record(Signature::WEAP(), 0x0000_1234, 0, Some("MASTER"))],
    ));
    load_order.add_plugin(make_plugin(
        GameId::SkyrimSE,
        "PatchA.esp",
        0,
        vec!["Master.esm"],
        vec![make_record(Signature::WEAP(), 0x0000_1234, 0, Some("PATCH_A"))],
    ));
    load_order.add_plugin(make_plugin(
        GameId::SkyrimSE,
        "PatchB.esp",
        0,
        vec!["Master.esm"],
        vec![make_record(Signature::WEAP(), 0x0000_1234, 0, Some("PATCH_B"))],
    ));
    load_order.sort_load_order();

    let winner = load_order.winning_override(FormId::new(0x0000_1234)).expect("winning override");
    assert_eq!(winner.1.editor_id(), Some("PATCH_B"));
}

#[test]
fn sort_keeps_relative_order_within_class() {
    let mut lo = LoadOrder::new(GameId::SkyrimSE);
    lo.add_plugin(make_plugin(GameId::SkyrimSE, "A.esp", 0, vec![], vec![]));
    lo.add_plugin(make_plugin(GameId::SkyrimSE, "B.esm", RecordFlags::ESM, vec![], vec![]));
    lo.add_plugin(make_plugin(GameId::SkyrimSE, "C.esp", 0, vec![], vec![]));
    lo.add_plugin(make_plugin(GameId::SkyrimSE, "D.esm", RecordFlags::ESM, vec![], vec![]));
    lo.sort_load_order();
    let names: Vec<&str> = lo.plugins.iter().map(plugin_name).collect();
    assert_eq!(names, vec!["B.esm", "D.esm", "A.esp", "C.esp"]);
}

#[test]
fn morrowind_load_order_is_not_sorted() {
    let mut lo = LoadOrder::new(GameId::Morrowind);
    lo.add_plugin(make_plugin(GameId::Morrowind, "A.esp", 0, vec![], vec![]));
    lo.add_plugin(make_plugin(GameId::Morrowind, "B.esm", RecordFlags::ESM, vec![], vec![]));
    lo.sort_load_order();
    assert_eq!(plugin_name(&lo.plugins[0]), "A.esp");
    assert_eq!(plugin_name(&lo.plugins[1]), "B.esm");
}

#[test]
fn resolve_own_record_and_unknown_master() {
    let mut lo = LoadOrder::new(GameId::SkyrimSE);
    lo.add_plugin(make_plugin(GameId::SkyrimSE, "Master.esm", RecordFlags::ESM, vec![], vec![]));
    lo.add_plugin(make_plugin(GameId::SkyrimSE, "Child.esp", 0, vec!["master.ESM"], vec![]));
    // Slot 1 is the child itself (its master list has one entry).
    let own = lo.resolve_form_id(1, FormId::new(0x0100_0800)).expect("own record");
    assert_eq!(own, (1, FormId::new(0x0000_0800)));
    // Master names match regardless of ASCII case.
    let m = lo.resolve_form_id(1, FormId::new(0x0000_0800)).expect("master record");
    assert_eq!(m.0, 0);
    // A slot beyond the child's own one is unresolved.
    assert!(lo.resolve_form_id(1, FormId::new(0x0200_0800)).is_none());
    // The null FormID is never resolved.
    assert!(lo.resolve_form_id(1, FormId::new(0)).is_none());
    // An index outside the load order is never resolved.
    assert!(lo.resolve_form_id(5, FormId::new(0x0000_0800)).is_none());
}

#[test]
fn form_id_context_and_master_resolver() {
    let mut lo = LoadOrder::new(GameId::SkyrimSE);
    lo.add_plugin(make_plugin(
        GameId::SkyrimSE,
        "Master.esm",
        RecordFlags::ESM,
        vec![],
        vec![make_record(Signature::WEAP(), 0x0000_1234, 0, Some("MASTER"))],
    ));
    lo.add_plugin(make_plugin(GameId::SkyrimSE, "Child.esp", 0, vec!["Master.esm"], vec![]));

    assert!(FormIdContext::new(&lo, 2).is_none());
    let ctx = FormIdContext::new(&lo, 1).expect("context");
    assert_eq!(ctx.resolve(FormId::new(0x0000_1234)), Some((0, FormId::new(0x0000_1234))));

    let resolver = MasterResolver::new(&lo);
    let (idx, rec) = resolver.resolve_record(1, FormId::new(0x0000_1234)).expect("record");
    assert_eq!(idx, 0);
    assert_eq!(rec.editor_id(), Some("MASTER"));
    assert!(resolver.resolve_record(1, FormId::new(0x0000_9999)).is_none());

    let chain = OverrideChain::new(&lo, FormId::new(0x0000_1234));
    assert_eq!(chain.entries.len(), 1);
    assert_eq!(chain.winning().map(|(i, _)| i), Some(0));
}
