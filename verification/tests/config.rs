use threed2vox::config::{first_greatest_score, Arguments, Config, MeshFormat, OutputFormat};
use threed2vox::error::ConversionError;

fn versions() -> Vec<(String, i32)> {
    let entries = [
        ("1.9", 169),
        ("1.12.2", 1343),
        ("1.13", 1519),
        ("1.13.1", 1628),
        ("1.13.2", 1631),
        ("1.14", 1952),
        ("1.14.4", 1976),
        ("1.15", 2225),
        ("1.15.2", 2230),
        ("20w20a", 2536),
        ("20w20b", 2537),
        ("20w21a", 2554),
        ("1.16", 2566),
        ("1.16.1", 2567),
        ("1.16.5", 2586),
    ];
    entries.iter().map(|(name, version)| (name.to_string(), *version)).collect()
}

fn arguments() -> Arguments {
    Arguments {
        input_path: Some("models/Tea.Pot.OBJ".to_string()),
        filename: Some("Tea.Pot".to_string()),
        extension: "OBJ".to_string(),
        version: Some("1.16".to_string()),
        version_number: None,
        block: None,
        threads: 0,
        format: None,
    }
}

#[test]
fn it_works() {
    assert_eq!(Config::parse_version_string(&versions(), "20w20a"), 2536)
}

#[test]
fn prefers_full_match() {
    assert_eq!(Config::parse_version_string(&versions(), "1.16"), 2566)
}

#[test]
fn does_partial_match() {
    assert_eq!(Config::parse_version_string(&versions(), "1.13-"), 1519)
}

#[test]
fn version_lookup_picks_the_first_of_equals() {
    let index = vec![("abcd".to_string(), 1), ("abce".to_string(), 2), ("abcf".to_string(), 3)];
    assert_eq!(Config::find_version(&index, "abcx"), Some(0));
    assert_eq!(Config::parse_version_string(&index, "abcx"), 1);
    assert_eq!(Config::find_version(&index, "abcf"), Some(2));
    let twice = vec![("x".to_string(), 7), ("y".to_string(), 8), ("y".to_string(), 9)];
    assert_eq!(Config::find_version(&twice, "y"), Some(1));
    assert_eq!(Config::parse_version_string(&twice, "y"), 8);
}

#[test]
fn version_lookup_prefers_the_most_alike_name() {
    let index = vec![("zzzzzz".to_string(), 1), ("1.14.3".to_string(), 2), ("1.14".to_string(), 3)];
    assert_eq!(Config::find_version(&index, "1.14.4"), Some(1));
    assert_eq!(Config::find_version(&index, "1.1"), Some(2));
    assert_eq!(Config::find_version(&index, "zzz"), Some(0));
}

#[test]
fn version_lookup_in_an_empty_index_gives_zero() {
    assert_eq!(Config::find_version(&Vec::new(), "1.16"), None);
    assert_eq!(Config::parse_version_string(&Vec::new(), "1.16"), 0);
}

#[test]
fn first_greatest_score_breaks_ties_to_the_front() {
    assert_eq!(first_greatest_score(&vec![]), None);
    assert_eq!(first_greatest_score(&vec![5]), Some(0));
    assert_eq!(first_greatest_score(&vec![1, 9, 3, 9, 2]), Some(1));
    assert_eq!(first_greatest_score(&vec![0, 0, 0]), Some(0));
    assert_eq!(first_greatest_score(&vec![1, 2, 3, u64::MAX]), Some(3));
}

#[test]
fn output_formats_go_by_name() {
    for name in ["schematic", "schem", "sch"] {
        assert_eq!(OutputFormat::from_name(name), Some(OutputFormat::Schematic));
    }
    for name in ["structure", "str", "nbt"] {
        assert_eq!(OutputFormat::from_name(name), Some(OutputFormat::Structure));
    }
    for name in ["", "Schematic", "schema", "nbt ", "obj"] {
        assert_eq!(OutputFormat::from_name(name), None);
    }
}

#[test]
fn mesh_formats_go_by_extension_in_any_case() {
    assert_eq!(MeshFormat::from_extension("obj"), Some(MeshFormat::Obj));
    assert_eq!(MeshFormat::from_extension("OBJ"), Some(MeshFormat::Obj));
    assert_eq!(MeshFormat::from_extension("Stl"), Some(MeshFormat::Stl));
    assert_eq!(MeshFormat::from_extension("dAE"), Some(MeshFormat::Dae));
    assert_eq!(MeshFormat::from_extension(""), None);
    assert_eq!(MeshFormat::from_extension("gltf"), None);
    assert_eq!(MeshFormat::from_lowercase("stl"), Some(MeshFormat::Stl));
    assert_eq!(MeshFormat::from_lowercase("STL"), None);
}

#[test]
fn worker_count_is_at_least_one() {
    assert_eq!(Config::worker_count(0, 8), 7);
    assert_eq!(Config::worker_count(0, 2), 1);
    assert_eq!(Config::worker_count(0, 1), 1);
    assert_eq!(Config::worker_count(0, 0), 1);
    assert_eq!(Config::worker_count(3, 8), 3);
    assert_eq!(Config::worker_count(12, 1), 12);
}

#[test]
fn configuration_follows_from_the_arguments() {
    let config = Config::build(&arguments(), &versions(), 4).unwrap();
    assert_eq!(config.input_path, "models/Tea.Pot.OBJ");
    assert_eq!(config.filename, "Tea.Pot");
    assert_eq!(config.block, "stone");
    assert_eq!(config.data_version, 2566);
    assert_eq!(config.threads, 3);
    assert_eq!(config.nbtify, OutputFormat::Schematic);
    assert_eq!(config.reader, MeshFormat::Obj);

    let mut asked = arguments();
    asked.block = Some("minecraft:glass".to_string());
    asked.format = Some("nbt".to_string());
    asked.threads = 6;
    asked.version = Some("1519".to_string());
    asked.version_number = Some(1519);
    asked.extension = "stl".to_string();
    let config = Config::build(&asked, &versions(), 4).unwrap();
    assert_eq!(config.block, "minecraft:glass");
    assert_eq!(config.data_version, 1519);
    assert_eq!(config.threads, 6);
    assert_eq!(config.nbtify, OutputFormat::Structure);
    assert_eq!(config.reader, MeshFormat::Stl);
}

#[test]
fn incomplete_arguments_are_a_configuration_error() {
    let mut no_input = arguments();
    no_input.input_path = None;
    let mut no_name = arguments();
    no_name.filename = None;
    let mut no_version = arguments();
    no_version.version = None;
    let mut bad_extension = arguments();
    bad_extension.extension = "png".to_string();
    let mut bad_format = arguments();
    bad_format.format = Some("zip".to_string());
    for args in [no_input, no_name, no_version, bad_extension, bad_format] {
        assert!(matches!(Config::build(&args, &versions(), 4), Err(ConversionError::Config)));
        assert!(matches!(Config::from_argmatch(&args, &versions()), Err(ConversionError::Config)));
    }
}

#[test]
fn configuration_on_this_machine_has_workers() {
    let config = Config::from_argmatch(&arguments(), &versions()).unwrap();
    assert!(config.threads >= 1);
    assert_eq!(config.data_version, 2566);
    let mut asked = arguments();
    asked.threads = 5;
    assert_eq!(Config::from_argmatch(&asked, &versions()).unwrap().threads, 5);
}
