use rbxlx_to_rojo::filesystem::FileSystem;
use rbxlx_to_rojo::resolve::{should_skip_service, ServiceLists};
use rbxlx_to_rojo::sanitize::{sanitize_component, sanitized_join};
use rbxlx_to_rojo::structures::{Instruction, InstructionLog, MetaFile, PartitionEntry, TreePartition};
use rbxlx_to_rojo::tree::{check_has_scripts, Node, SourceText, Tree};
use rbxlx_to_rojo::codec::{serialize_instance_to_rbxm, subtree_writable};
use rbxlx_to_rojo::walk::{collect_instructions, plan_instructions, process_instructions};
use rbxlx_to_rojo::ExportMode;
use rbx_dom_weak::types::{Content, Ref, UniqueId, Variant};

const META: &str = "{\n  \"ignoreUnknownInstances\": true\n}";

fn node(class: &str, name: &str) -> Node {
    Node::new(class.to_string(), name.to_string(), SourceText::Missing)
}

fn script(class: &str, name: &str, source: &str) -> Node {
    Node::new(class.to_string(), name.to_string(), SourceText::Text(source.to_string()))
}

fn lists(respected: &[&str], non_tree: &[&str]) -> ServiceLists {
    ServiceLists {
        respected: respected.iter().map(|s| s.to_string()).collect(),
        non_tree: non_tree.iter().map(|s| s.to_string()).collect(),
    }
}

fn default_lists() -> ServiceLists {
    lists(
        &["Workspace", "ReplicatedStorage", "ServerScriptService", "StarterPlayer"],
        &[],
    )
}

fn p(parts: &[&str]) -> Vec<String> {
    parts.iter().map(|s| s.to_string()).collect()
}

fn data_model() -> Tree {
    Tree::new(node("DataModel", "DataModel"))
}

fn is_folder(i: &Instruction, path: &[&str]) -> bool {
    matches!(i, Instruction::CreateFolder { folder } if *folder == p(path))
}

fn is_file(i: &Instruction, path: &[&str], contents: &[u8]) -> bool {
    matches!(i, Instruction::CreateFile { filename, contents: c } if *filename == p(path) && c.as_slice() == contents)
}

#[test]
fn script_leaf_becomes_one_file() {
    let mut tree = data_model();
    tree.add_child(0, script("Script", "Main", "print('hi')"));
    let out = collect_instructions(&tree, ExportMode::Full, &default_lists());
    assert_eq!(out.len(), 1);
    assert!(is_file(&out[0], &["Main.server.luau"], b"print('hi')"));
}

#[test]
fn unrespected_service_is_dropped_with_its_children() {
    let mut tree = data_model();
    let lighting = tree.add_child(0, node("Lighting", "Lighting"));
    tree.add_child(lighting, script("Script", "Sun", "x"));
    tree.add_child(lighting, node("Folder", "Sky"));
    let out = collect_instructions(&tree, ExportMode::Full, &default_lists());
    assert_eq!(out.len(), 0);
    assert!(should_skip_service("Lighting", &default_lists()));
    assert!(!should_skip_service("Workspace", &default_lists()));
    assert!(!should_skip_service("Folder", &default_lists()));
}

#[test]
fn scripts_only_drops_scriptless_folder() {
    let mut tree = data_model();
    let folder = tree.add_child(0, node("Folder", "Stuff"));
    tree.add_child(folder, node("Part", "Brick"));
    let out = collect_instructions(&tree, ExportMode::ScriptsOnly, &default_lists());
    assert_eq!(out.len(), 0);
    let full = collect_instructions(&tree, ExportMode::Full, &default_lists());
    assert_eq!(full.len(), 3);
    assert!(is_folder(&full[0], &["Stuff"]));
    assert!(is_file(&full[1], &["Stuff", "init.meta.json"], META.as_bytes()));
    assert!(is_folder(&full[2], &["Stuff", "Brick"]));
}

#[test]
fn player_root_lists_its_children() {
    let mut tree = data_model();
    let player = tree.add_child(0, node("StarterPlayer", "StarterPlayer"));
    tree.add_child(player, script("Script", "A", "a()"));
    tree.add_child(player, node("Folder", "B"));
    let out = collect_instructions(&tree, ExportMode::Full, &default_lists());
    assert_eq!(out.len(), 5);
    assert!(is_folder(&out[0], &["StarterPlayer"]));
    match &out[1] {
        Instruction::AddToTree { name, partition } => {
            assert_eq!(name, "StarterPlayer");
            assert_eq!(partition.class_name, "StarterPlayer");
            assert!(partition.path.is_none());
            assert!(partition.ignore_unknown_instances);
            assert_eq!(partition.children.len(), 2);
            assert_eq!(partition.children[0].0, "A");
            assert_eq!(partition.children[0].1.class_name, "Script");
            assert_eq!(partition.children[0].1.path, Some(p(&["StarterPlayer", "A"])));
            assert_eq!(partition.children[1].0, "B");
            assert_eq!(partition.children[1].1.class_name, "Folder");
            assert_eq!(partition.children[1].1.path, Some(p(&["StarterPlayer", "B"])));
        }
        other => panic!("expected a manifest entry, got {:?}", other),
    }
    assert!(is_file(&out[2], &["StarterPlayer", "A.server.luau"], b"a()"));
    assert!(is_folder(&out[3], &["StarterPlayer", "B"]));
    assert!(is_file(&out[4], &["StarterPlayer", "B", "init.meta.json"], META.as_bytes()));
}

#[test]
fn player_root_children_with_one_name_share_an_entry() {
    let mut tree = data_model();
    let player = tree.add_child(0, node("StarterPlayer", "StarterPlayer"));
    tree.add_child(player, node("Folder", "X"));
    tree.add_child(player, node("Configuration", "X"));
    let out = collect_instructions(&tree, ExportMode::Full, &default_lists());
    match &out[1] {
        Instruction::AddToTree { partition, .. } => {
            assert_eq!(partition.children.len(), 1);
            assert_eq!(partition.children[0].1.class_name, "Configuration");
        }
        other => panic!("expected a manifest entry, got {:?}", other),
    }
}

#[test]
fn sanitize_replaces_strips_and_prefixes() {
    assert_eq!(sanitize_component("a<b>:c"), "a_b__c");
    assert_eq!(sanitize_component("x/y\\z|w?*\""), "x_y_z_w___");
    assert_eq!(sanitize_component("name. . "), "name");
    assert_eq!(sanitize_component(""), "_");
    assert_eq!(sanitize_component("..."), "_");
    assert_eq!(sanitize_component("con"), "_con");
    assert_eq!(sanitize_component("COM1"), "_COM1");
    assert_eq!(sanitize_component("Lpt9"), "_Lpt9");
    assert_eq!(sanitize_component("lpt0"), "lpt0");
    assert_eq!(sanitize_component("console"), "console");
    assert_eq!(sanitize_component("a\u{7}b\u{85}"), "a_b_");
    assert_eq!(sanitize_component("nul."), "_nul");
    assert_eq!(sanitized_join(&p(&["Work"]), "a:b"), p(&["Work", "a_b"]));
}

#[test]
fn sanitize_output_is_safe() {
    for name in ["", " ", "aux", "a*", "\u{0}", "PRN  ", "ok", "élan?"] {
        let s = sanitize_component(name);
        assert!(!s.is_empty());
        assert!(!s.chars().any(|c| "<>:\"/\\|?*".contains(c) || c.is_control()));
        assert!(!s.ends_with(' ') && !s.ends_with('.'));
        let lower = s.to_ascii_lowercase();
        assert!(!["con", "prn", "aux", "nul", "com1", "lpt1"].contains(&lower.as_str()));
    }
}

#[test]
fn containment_marks_ancestors_of_scripts() {
    let mut tree = data_model();
    let a = tree.add_child(0, node("Folder", "A"));
    let b = tree.add_child(a, node("Model", "B"));
    let s = tree.add_child(b, script("ModuleScript", "S", ""));
    let c = tree.add_child(0, node("Folder", "C"));
    let d = tree.add_child(c, node("Part", "D"));
    let map = check_has_scripts(&tree);
    assert_eq!(map.len(), 6);
    assert!(map[0] && map[a] && map[b] && map[s]);
    assert!(!map[c] && !map[d]);
    assert_eq!(check_has_scripts(&tree), map);
}

#[test]
fn pipeline_is_repeatable() {
    let mut tree = data_model();
    let ws = tree.add_child(0, node("Workspace", "Workspace"));
    let m = tree.add_child(ws, node("Model", "Car"));
    tree.add_child(m, script("Script", "Drive", "go()"));
    tree.add_child(ws, node("Part", "Floor"));
    let player = tree.add_child(0, node("StarterPlayer", "StarterPlayer"));
    tree.add_child(player, script("LocalScript", "Cam", "cam()"));
    for mode in [ExportMode::Full, ExportMode::ScriptsOnly] {
        let first = format!("{:?}", collect_instructions(&tree, mode, &default_lists()));
        let second = format!("{:?}", collect_instructions(&tree, mode, &default_lists()));
        assert_eq!(first, second);
        let a = format!("{:?}", plan_instructions(&tree, mode, &default_lists()));
        let b = format!("{:?}", plan_instructions(&tree, mode, &default_lists()));
        assert_eq!(a, b);
    }
}

#[test]
fn model_with_script_is_encoded_without_it() {
    let mut tree = data_model();
    let m = tree.add_child(0, node("Model", "Car"));
    tree.add_child(m, node("Part", "Wheel"));
    tree.add_child(m, script("Script", "Drive", "go()"));
    let out = collect_instructions(&tree, ExportMode::Full, &default_lists());
    assert_eq!(out.len(), 3);
    assert!(is_folder(&out[0], &["Car"]));
    match &out[1] {
        Instruction::CreateFile { filename, contents } => {
            assert_eq!(*filename, p(&["Car", "init.rbxmx"]));
            let text = String::from_utf8_lossy(contents);
            assert!(text.contains("<roblox"));
            assert!(text.contains("Wheel"));
            assert!(!text.contains("Drive"));
        }
        other => panic!("expected the model file, got {:?}", other),
    }
    assert!(is_file(&out[2], &["Car", "Drive.server.luau"], b"go()"));

    let scripts_only = collect_instructions(&tree, ExportMode::ScriptsOnly, &default_lists());
    assert_eq!(scripts_only.len(), 2);
    assert!(is_folder(&scripts_only[0], &["Car"]));
    assert!(is_file(&scripts_only[1], &["Car", "Drive.server.luau"], b"go()"));
}

#[test]
fn scriptless_model_is_only_a_folder() {
    let mut tree = data_model();
    let m = tree.add_child(0, node("Model", "Rock"));
    tree.add_child(m, node("Part", "Stone"));
    let out = collect_instructions(&tree, ExportMode::Full, &default_lists());
    assert_eq!(out.len(), 1);
    assert!(is_folder(&out[0], &["Rock"]));
}

#[test]
fn script_with_only_script_children_has_no_meta() {
    let mut tree = data_model();
    let main = tree.add_child(0, script("Script", "Main", "main()"));
    tree.add_child(main, script("ModuleScript", "Util", "util()"));
    let deep = tree.add_child(main, node("Folder", "Lib"));
    tree.add_child(deep, script("ModuleScript", "Deep", "deep()"));
    let out = collect_instructions(&tree, ExportMode::Full, &default_lists());
    assert!(is_folder(&out[0], &["Main"]));
    assert!(is_file(&out[1], &["Main", "init.server.luau.lua"], b"main()"));
    assert!(!out.iter().any(|i| is_file(i, &["Main", "init.meta.json"], META.as_bytes())));
    assert!(is_file(&out[2], &["Main", "Util.luau"], b"util()"));
}

#[test]
fn script_with_partial_or_no_script_children_has_meta() {
    let mut tree = data_model();
    let partial = tree.add_child(0, script("LocalScript", "Ui", "ui()"));
    tree.add_child(partial, script("ModuleScript", "Button", "b()"));
    tree.add_child(partial, node("Frame", "Panel"));
    let none = tree.add_child(0, node("ModuleScript", "Data"));
    tree.add_child(none, node("Configuration", "Settings"));
    let out = collect_instructions(&tree, ExportMode::Full, &default_lists());
    assert!(is_folder(&out[0], &["Ui"]));
    assert!(is_file(&out[1], &["Ui", "init.client.luau.lua"], b"ui()"));
    assert!(is_file(&out[2], &["Ui", "init.meta.json"], META.as_bytes()));
    assert!(out.iter().any(|i| is_file(i, &["Data", "init.luau.lua"], b"")));
    assert!(out.iter().any(|i| is_file(i, &["Data", "init.meta.json"], META.as_bytes())));
}

#[test]
fn source_of_another_type_gives_empty_file() {
    let mut tree = data_model();
    tree.add_child(0, Node::new("Script".to_string(), "Odd".to_string(), SourceText::Other));
    let out = collect_instructions(&tree, ExportMode::Full, &default_lists());
    assert_eq!(out.len(), 1);
    assert!(is_file(&out[0], &["Odd.server.luau"], b""));
}

#[test]
fn respected_service_gets_entry_and_folder() {
    let mut tree = data_model();
    let ws = tree.add_child(0, node("Workspace", "Workspace"));
    tree.add_child(ws, script("Script", "Run", "r()"));
    let rs = tree.add_child(0, node("ReplicatedStorage", "ReplicatedStorage"));
    tree.add_child(rs, script("ModuleScript", "Shared", "s()"));
    let l = lists(&["Workspace", "ReplicatedStorage"], &["ReplicatedStorage"]);
    let out = collect_instructions(&tree, ExportMode::Full, &l);
    assert_eq!(out.len(), 5);
    match &out[0] {
        Instruction::AddToTree { name, partition } => {
            assert_eq!(name, "Workspace");
            assert_eq!(partition.class_name, "Workspace");
            assert_eq!(partition.path, Some(p(&["Workspace"])));
            assert!(partition.children.is_empty());
        }
        other => panic!("expected a manifest entry, got {:?}", other),
    }
    assert!(is_folder(&out[1], &["Workspace"]));
    assert!(is_file(&out[2], &["Workspace", "Run.server.luau"], b"r()"));
    assert!(is_folder(&out[3], &["ReplicatedStorage"]));
    assert!(is_file(&out[4], &["ReplicatedStorage", "Shared.luau"], b"s()"));
}

#[test]
fn meta_file_text() {
    assert_eq!(MetaFile { ignore_unknown_instances: true }.to_json(), META.as_bytes());
    assert_eq!(
        MetaFile { ignore_unknown_instances: false }.to_json(),
        "{\n  \"ignoreUnknownInstances\": false\n}".as_bytes()
    );
}

fn partition(class: &str, path: Option<&[&str]>) -> TreePartition {
    TreePartition {
        class_name: class.to_string(),
        children: Vec::new(),
        ignore_unknown_instances: true,
        path: path.map(p),
    }
}

#[test]
fn colliding_entries_get_suffixes() {
    let mut fs = FileSystem::from_root("out".to_string());
    assert_eq!(fs.project.name, "project");
    fs.add_to_tree("Workspace".to_string(), partition("Workspace", Some(&["Workspace"])));
    fs.add_to_tree("Workspace".to_string(), partition("Model", Some(&["Workspace"])));
    fs.add_to_tree("Workspace".to_string(), partition("Folder", Some(&["a", "Workspace"])));
    fs.add_to_tree("Workspace".to_string(), partition("Part", None));
    let t = &fs.project.tree;
    assert_eq!(t.len(), 4);
    assert_eq!(t[0].0, "Workspace");
    assert_eq!(t[0].1.class_name, "Workspace");
    assert_eq!(t[0].1.path, Some(p(&["src", "Workspace"])));
    assert_eq!(t[1].0, "Workspace_2");
    assert_eq!(t[1].1.class_name, "Model");
    assert_eq!(t[1].1.path, Some(p(&["src", "Workspace_2"])));
    assert_eq!(t[2].0, "Workspace_3");
    assert_eq!(t[2].1.path, Some(p(&["src", "a", "Workspace_3"])));
    assert_eq!(t[3].0, "Workspace_4");
    assert_eq!(t[3].1.path, None);
}

#[test]
fn entry_child_paths_move_under_src() {
    let mut fs = FileSystem::from_root("out".to_string());
    let mut part = partition("StarterPlayer", None);
    part.children.push((
        "StarterPlayerScripts".to_string(),
        PartitionEntry {
            class_name: "StarterPlayerScripts".to_string(),
            ignore_unknown_instances: true,
            path: Some(p(&["StarterPlayer", "StarterPlayerScripts"])),
        },
    ));
    fs.add_to_tree("StarterPlayer".to_string(), part);
    let stored = &fs.project.tree[0].1;
    assert_eq!(stored.path, None);
    assert_eq!(stored.children[0].1.path, Some(p(&["src", "StarterPlayer", "StarterPlayerScripts"])));
}

#[test]
fn suffix_skips_taken_names() {
    let mut fs = FileSystem::from_root("out".to_string());
    fs.add_to_tree("A_2".to_string(), partition("Folder", None));
    fs.add_to_tree("A".to_string(), partition("Folder", None));
    fs.add_to_tree("A".to_string(), partition("Folder", None));
    assert_eq!(fs.project.tree[2].0, "A_3");
}

#[test]
fn process_feeds_reader_in_order_and_finishes_once() {
    let mut tree = data_model();
    let f = tree.add_child(0, node("Folder", "F"));
    tree.add_child(f, script("Script", "S", "s()"));
    let mut log = InstructionLog::new();
    process_instructions(&tree, &mut log, ExportMode::Full, &default_lists());
    let seen: Vec<String> = log.instructions.iter().map(|i| format!("{:?}", i)).collect();
    let expected: Vec<String> = collect_instructions(&tree, ExportMode::Full, &default_lists())
        .iter()
        .map(|i| format!("{:?}", i))
        .collect();
    assert_eq!(seen, expected);
    assert_eq!(seen.len(), 3);
    assert_eq!(log.finished_after, vec![3]);
}

#[test]
fn empty_root_gives_no_instructions_and_one_finish() {
    let tree = data_model();
    let mut log = InstructionLog::new();
    process_instructions(&tree, &mut log, ExportMode::Full, &default_lists());
    assert!(log.instructions.is_empty());
    assert_eq!(log.finished_after, vec![0]);
}

fn with_property(mut n: Node, key: &str, value: Variant) -> Node {
    n.properties.push((ustr::ustr(key), value));
    n
}

#[test]
fn player_root_overrides_service_lists() {
    let mut tree = data_model();
    let player = tree.add_child(0, node("StarterPlayer", "StarterPlayer"));
    tree.add_child(player, script("Script", "A", "a()"));
    let out = collect_instructions(&tree, ExportMode::Full, &lists(&["Workspace"], &[]));
    assert_eq!(out.len(), 3);
    assert!(is_folder(&out[0], &["StarterPlayer"]));
    assert!(matches!(&out[1], Instruction::AddToTree { name, .. } if name == "StarterPlayer"));
    assert!(is_file(&out[2], &["StarterPlayer", "A.server.luau"], b"a()"));
}

#[test]
fn object_content_is_not_encoded_but_folder_stays() {
    let mut tree = data_model();
    let m = tree.add_child(0, node("Model", "Car"));
    let part = with_property(node("Part", "Wheel"), "Texture", Variant::Content(Content::from_referent(Ref::new())));
    tree.add_child(m, part);
    tree.add_child(m, script("Script", "Drive", "go()"));
    assert_eq!(serialize_instance_to_rbxm(&tree, m), None);
    assert!(!subtree_writable(&tree, m));
    let out = collect_instructions(&tree, ExportMode::Full, &default_lists());
    assert_eq!(out.len(), 2);
    assert!(is_folder(&out[0], &["Car"]));
    assert!(is_file(&out[1], &["Car", "Drive.server.luau"], b"go()"));
}

#[test]
fn uri_content_is_encoded() {
    let mut tree = data_model();
    let m = tree.add_child(0, node("Model", "Car"));
    let part = with_property(node("Decal", "Logo"), "Texture", Variant::Content(Content::from_uri("rbxassetid://1")));
    tree.add_child(m, part);
    tree.add_child(m, script("Script", "Drive", "go()"));
    assert!(subtree_writable(&tree, m));
    let bytes = serialize_instance_to_rbxm(&tree, m).expect("model file");
    assert!(String::from_utf8_lossy(&bytes).contains("rbxassetid://1"));
}

#[test]
fn repeated_unique_id_is_not_encoded() {
    let id = UniqueId::new(1, 2, 3);
    let mut tree = data_model();
    let m = tree.add_child(0, with_property(node("Model", "Car"), "UniqueId", Variant::UniqueId(id)));
    tree.add_child(m, with_property(node("Part", "Wheel"), "UniqueId", Variant::UniqueId(id)));
    tree.add_child(m, script("Script", "Drive", "go()"));
    assert!(!subtree_writable(&tree, m));
    assert_eq!(serialize_instance_to_rbxm(&tree, m), None);

    let mut other = data_model();
    let n = other.add_child(0, with_property(node("Model", "Car"), "UniqueId", Variant::UniqueId(id)));
    other.add_child(n, with_property(node("Part", "Wheel"), "UniqueId", Variant::UniqueId(UniqueId::new(4, 5, 6))));
    assert!(subtree_writable(&other, n));
    assert!(serialize_instance_to_rbxm(&other, n).is_some());
}

#[test]
fn script_is_never_encoded() {
    let mut tree = data_model();
    let s = tree.add_child(0, script("Script", "Main", "x"));
    assert_eq!(serialize_instance_to_rbxm(&tree, s), None);
}

#[test]
fn read_instruction_keeps_entries_and_returns_files() {
    let mut fs = FileSystem::from_root("out".to_string());
    let back = fs.read_instruction(Instruction::CreateFolder { folder: p(&["A"]) });
    assert!(matches!(back, Some(Instruction::CreateFolder { folder }) if folder == p(&["A"])));
    let none = fs.read_instruction(Instruction::AddToTree {
        name: "Workspace".to_string(),
        partition: partition("Workspace", Some(&["Workspace"])),
    });
    assert!(none.is_none());
    fs.read_instruction(Instruction::AddToTree {
        name: "Workspace".to_string(),
        partition: partition("Model", Some(&["Workspace"])),
    });
    assert_eq!(fs.project.tree.len(), 2);
    assert_eq!(fs.project.tree[0].1.class_name, "Workspace");
    assert_eq!(fs.project.tree[1].0, "Workspace_2");
}

#[test]
fn repeated_id_under_another_name_is_encoded() {
    let id = UniqueId::new(7, 8, 9);
    let mut tree = data_model();
    let m = tree.add_child(0, with_property(node("Model", "Car"), "Foo", Variant::UniqueId(id)));
    tree.add_child(m, with_property(node("Part", "Wheel"), "Foo", Variant::UniqueId(id)));
    assert!(subtree_writable(&tree, m));
    let first = serialize_instance_to_rbxm(&tree, m).expect("model file");
    assert_eq!(serialize_instance_to_rbxm(&tree, m), Some(first));
}

#[test]
fn later_unique_id_property_replaces_earlier() {
    let id = UniqueId::new(1, 1, 1);
    let mut tree = data_model();
    let car = with_property(node("Model", "Car"), "UniqueId", Variant::UniqueId(id));
    let car = with_property(car, "UniqueId", Variant::UniqueId(UniqueId::new(2, 2, 2)));
    let m = tree.add_child(0, car);
    tree.add_child(m, with_property(node("Part", "Wheel"), "UniqueId", Variant::UniqueId(id)));
    assert!(subtree_writable(&tree, m));
}
