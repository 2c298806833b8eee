use deviltool::types::{DDFiletype, DDSubFileHeader};
use deviltool::unpack::{
    decode_payload, plan_extraction, ExtractAction, ExtractOptions, ExtractState, FolderPolicy,
    Payload,
};

fn stored(file_type: DDFiletype, name: &str, offset: u32, size: u32, timestamp: u32) -> DDSubFileHeader {
    DDSubFileHeader { file_type, filename: String::from(name), offset, size, timestamp }
}

fn folder(names: &[&str]) -> Vec<String> {
    names.iter().map(|s| String::from(*s)).collect()
}

fn write_to(dir: &[&str], file_name: &str, offset: u32, size: u32, split_glsl: bool, timestamp: Option<u32>) -> ExtractAction {
    let stem = &file_name[..file_name.rfind('.').unwrap()];
    ExtractAction::WriteFile {
        dir: folder(dir),
        entry_name: String::from(stem),
        file_name: String::from(file_name),
        offset,
        size,
        split_glsl,
        timestamp,
    }
}

fn default_options() -> ExtractOptions {
    ExtractOptions::from_flags(false, false, false, false)
}

fn nested_table() -> Vec<DDSubFileHeader> {
    vec![
        stored(DDFiletype::WavAudio, "x", 100, 10, 5),
        stored(DDFiletype::FolderMarker, "b", 0, 0, 0),
        stored(DDFiletype::WavAudio, "y", 110, 20, 0),
        stored(DDFiletype::FolderMarker, "a", 0, 0, 0),
    ]
}

#[test]
fn switches_become_options() {
    assert_eq!(
        default_options(),
        ExtractOptions { policy: FolderPolicy::Nest, reversed: true, preserve_glsl: false, set_times: true }
    );
    assert_eq!(
        ExtractOptions::from_flags(true, false, true, true),
        ExtractOptions { policy: FolderPolicy::Flatten, reversed: false, preserve_glsl: true, set_times: false }
    );
    assert_eq!(ExtractOptions::from_flags(false, true, false, false).policy, FolderPolicy::Preserve);
    assert!(ExtractOptions::from_flags(false, true, false, false).reversed);
    assert_eq!(ExtractOptions::from_flags(true, true, false, false).policy, FolderPolicy::Preserve);
    assert!(!ExtractOptions::from_flags(true, true, false, false).reversed);
}

#[test]
fn each_marker_opens_its_folder_in_place_of_the_one_before() {
    let actions = plan_extraction(&nested_table(), &default_options());
    assert_eq!(
        actions,
        vec![
            ExtractAction::EnterDirectory { dir: folder(&["a"]) },
            write_to(&["a"], "y.wav", 110, 20, false, None),
            ExtractAction::EnterDirectory { dir: folder(&["b"]) },
            write_to(&["b"], "x.wav", 100, 10, false, Some(5)),
        ]
    );
}

#[test]
fn files_before_the_first_marker_go_to_the_output_folder() {
    let table = vec![
        stored(DDFiletype::FolderMarker, "a", 0, 0, 0),
        stored(DDFiletype::Texture2, "top", 50, 4, 9),
    ];
    assert_eq!(
        plan_extraction(&table, &default_options()),
        vec![
            write_to(&[], "top.dd_tex2", 50, 4, false, Some(9)),
            ExtractAction::EnterDirectory { dir: folder(&["a"]) },
        ]
    );
}

#[test]
fn flattening_passes_over_markers_and_keeps_the_order() {
    let options = ExtractOptions::from_flags(true, false, false, false);
    assert_eq!(
        plan_extraction(&nested_table(), &options),
        vec![
            write_to(&[], "x.wav", 100, 10, false, Some(5)),
            ExtractAction::Skip { entry_name: String::from("b") },
            write_to(&[], "y.wav", 110, 20, false, None),
            ExtractAction::Skip { entry_name: String::from("a") },
        ]
    );
}

#[test]
fn preserving_writes_markers_as_empty_files() {
    let options = ExtractOptions::from_flags(false, true, false, true);
    let table = vec![
        stored(DDFiletype::WavAudio, "x", 100, 10, 5),
        stored(DDFiletype::FolderMarker, "b", 7, 3, 8),
    ];
    assert_eq!(
        plan_extraction(&table, &options),
        vec![
            write_to(&[], "b.foldermarker", 7, 0, false, None),
            write_to(&[], "x.wav", 100, 10, false, None),
        ]
    );
}

#[test]
fn state_moves_only_at_markers_that_open_folders() {
    let options = default_options();
    let mut state = ExtractState::new();
    assert_eq!(state, ExtractState { dir: vec![], first_folder: true });
    state.step(&stored(DDFiletype::WavAudio, "x", 0, 0, 0), &options);
    assert_eq!(state, ExtractState { dir: vec![], first_folder: true });
    let action = state.step(&stored(DDFiletype::FolderMarker, "a", 0, 0, 0), &options);
    assert_eq!(action, ExtractAction::EnterDirectory { dir: folder(&["a"]) });
    assert_eq!(state, ExtractState { dir: folder(&["a"]), first_folder: false });
    state.step(&stored(DDFiletype::FolderMarker, "b", 0, 0, 0), &options);
    assert_eq!(state, ExtractState { dir: folder(&["b"]), first_folder: false });
    let flat = ExtractOptions::from_flags(true, false, false, false);
    state.step(&stored(DDFiletype::FolderMarker, "c", 0, 0, 0), &flat);
    assert_eq!(state, ExtractState { dir: folder(&["b"]), first_folder: false });
}

#[test]
fn a_marker_enters_below_a_folder_that_was_given() {
    let mut state = ExtractState { dir: folder(&["out", "old"]), first_folder: false };
    state.step(&stored(DDFiletype::FolderMarker, "new", 0, 0, 0), &default_options());
    assert_eq!(state.dir, folder(&["out", "new"]));
    let mut state = ExtractState { dir: folder(&["out"]), first_folder: true };
    state.step(&stored(DDFiletype::FolderMarker, "new", 0, 0, 0), &default_options());
    assert_eq!(state.dir, folder(&["out", "new"]));
    assert!(!state.first_folder);
}

#[test]
fn shader_entries_are_split_unless_kept_whole() {
    let table = vec![stored(DDFiletype::GLSL, "boid", 1, 2, 3)];
    assert_eq!(
        plan_extraction(&table, &default_options()),
        vec![write_to(&[], "boid.dd_glsl", 1, 2, true, Some(3))]
    );
    let whole = ExtractOptions::from_flags(false, false, true, false);
    assert_eq!(
        plan_extraction(&table, &whole),
        vec![write_to(&[], "boid.dd_glsl", 1, 2, false, Some(3))]
    );
}

#[test]
fn unknown_types_keep_their_code_in_the_file_name() {
    let table = vec![stored(DDFiletype::Unknown(0x2A), "odd.name", 1, 2, 0)];
    assert_eq!(
        plan_extraction(&table, &default_options()),
        vec![write_to(&[], "odd.name.dd_0x2A", 1, 2, false, None)]
    );
}

#[test]
fn shader_blob_becomes_two_files() {
    let mut blob = vec![4, 0, 0, 0, 2, 0, 0, 0, 3, 0, 0, 0];
    blob.extend_from_slice(b"boidvsfrg");
    let name = String::from("boid");
    assert_eq!(
        decode_payload(&name, true, &blob),
        Payload::Shaders {
            vertex_name: String::from("boid.vert"),
            vertex_source: String::from("vs"),
            fragment_name: String::from("boid.frag"),
            fragment_source: String::from("frg"),
            blob_name: String::from("boid"),
            name_matches: true,
        }
    );
    let other = String::from("bat");
    assert_eq!(
        decode_payload(&other, true, &blob),
        Payload::Shaders {
            vertex_name: String::from("bat.vert"),
            vertex_source: String::from("vs"),
            fragment_name: String::from("bat.frag"),
            fragment_source: String::from("frg"),
            blob_name: String::from("boid"),
            name_matches: false,
        }
    );
}

#[test]
fn payload_that_is_no_shader_blob_is_written_raw() {
    let mut blob = vec![4, 0, 0, 0, 2, 0, 0, 0, 3, 0, 0, 0];
    blob.extend_from_slice(b"boidvsfrg");
    let name = String::from("boid");
    assert_eq!(decode_payload(&name, false, &blob), Payload::Raw);
    assert_eq!(decode_payload(&name, true, &blob[..20]), Payload::Raw);
    assert_eq!(decode_payload(&name, true, b"RIFF"), Payload::Raw);
    blob[13] = 0xFF;
    assert_eq!(decode_payload(&name, true, &blob), Payload::Raw);
}
