use detguest::agent::boot::{parse, GameSource};
use detguest::agent::tiny::parse_doc;

#[test]
fn determinism_identical_reparse() {
    let doc = "a = 1\n[t]\nb = \"x\"\n[[arr]]\nc = 0x1F\n";
    assert_eq!(parse_doc(doc).unwrap(), parse_doc(doc).unwrap());
}

#[test]
fn comments_strings_escapes_hex() {
    let v = parse_doc(
        "# top\nkey = \"a # not comment \\\"q\\\"\" # trailing\nhex = 0x1F\nneg = -3\n",
    )
    .unwrap();
    let t = v.as_table().unwrap();
    assert_eq!(t.get("key").unwrap().as_str(), Some("a # not comment \"q\""));
    assert_eq!(t.get("hex").unwrap().as_integer(), Some(0x1F));
    assert_eq!(t.get("neg").unwrap().as_integer(), Some(-3));
}

#[test]
fn dotted_header_attaches_to_last_array_element() {
    let v = parse_doc("[[unit]]\nid = 0\n[[unit]]\nid = 1\n[unit.control]\nprotocol = \"p\"\n")
        .unwrap();
    let units = v.as_table().unwrap().get("unit").unwrap().as_array().unwrap();
    assert!(units[0].as_table().unwrap().get("control").is_none());
    let c = units[1].as_table().unwrap().get("control").unwrap().as_table().unwrap();
    assert_eq!(c.get("protocol").unwrap().as_str(), Some("p"));
}

#[test]
fn string_arrays() {
    let v = parse_doc("args = [\"--a\", \"b c\"]\nempty = []\n").unwrap();
    let t = v.as_table().unwrap();
    assert_eq!(t.get("args").unwrap().as_array().unwrap().len(), 2);
    assert!(t.get("empty").unwrap().as_array().unwrap().is_empty());
}

#[test]
fn errors_never_panic() {
    for bad in [
        "key",
        "= 1",
        "[unterminated",
        "[[x]",
        "k = \"unterminated",
        "k = [\"a\" \"b\"]",
        "k = zzz",
        "k = 1\nk = 2",
        "[5bad key]",
        "k = \"a\" junk",
    ] {
        assert!(parse_doc(bad).is_err(), "{bad:?} must error");
    }
}

const GOOD: &str = r#"
boot_toml_version = 1

[autostart]
unit = 0

[[unit]]
id = 0
exec = "/opt/autostart-trivial"
log_mask = 0x1F

[[unit]]
id = 1
exec = "/opt/print-lines"
args = ["--fast"]

[[expected_region]]
name = "wram"
layout_version = 1
"#;

#[test]
fn good_manifest_parses() {
    let m = parse(GOOD).unwrap();
    assert_eq!(m.autostart_unit, Some(0));
    assert_eq!(m.units.len(), 2);
    assert_eq!(m.unit(0).unwrap().exec_path, "/opt/autostart-trivial");
    assert_eq!(m.unit(1).unwrap().args, vec!["--fast"]);
    assert_eq!(m.unit(0).unwrap().log_mask, 0x1F);
    assert_eq!(m.expected_regions.len(), 1);
}

#[test]
fn minimal_manifest_no_autostart() {
    let m = parse("boot_toml_version = 1\n").unwrap();
    assert_eq!(m.autostart_unit, None);
    assert!(m.units.is_empty());
    assert!(m.expected_regions.is_empty());
}

#[test]
fn faults_per_7_2() {
    // missing version
    assert!(parse("").unwrap_err().0.contains("boot_toml_version"));
    // unknown major
    assert!(parse("boot_toml_version = 2\n").unwrap_err().0.contains("unknown"));
    // parse error
    assert!(parse("boot_toml_version = ").unwrap_err().0.contains("parse error"));
    // non-dense ids
    let e = parse("boot_toml_version = 1\n[[unit]]\nid = 1\nexec = \"/x\"\n").unwrap_err();
    assert!(e.0.contains("dense"), "{e:?}");
    // duplicate ids
    let e = parse(
        "boot_toml_version = 1\n[[unit]]\nid = 0\nexec = \"/x\"\n[[unit]]\nid = 0\nexec = \"/y\"\n",
    )
    .unwrap_err();
    assert!(e.0.contains("dense"), "{e:?}");
    // relative exec path
    let e = parse("boot_toml_version = 1\n[[unit]]\nid = 0\nexec = \"x\"\n").unwrap_err();
    assert!(e.0.contains("absolute"), "{e:?}");
    // autostart to nonexistent unit
    let e = parse("boot_toml_version = 1\n[autostart]\nunit = 3\n").unwrap_err();
    assert!(e.0.contains("nonexistent"), "{e:?}");
    // duplicate region names
    let e = parse(
        "boot_toml_version = 1\n[[expected_region]]\nname = \"a\"\nlayout_version = 1\n[[expected_region]]\nname = \"a\"\nlayout_version = 1\n",
    )
    .unwrap_err();
    assert!(e.0.contains("duplicate"), "{e:?}");
    // over-long region name
    let long = "x".repeat(57);
    let e = parse(&format!(
        "boot_toml_version = 1\n[[expected_region]]\nname = \"{long}\"\nlayout_version = 1\n"
    ))
    .unwrap_err();
    assert!(e.0.contains("56-byte"), "{e:?}");
    // control without game_dev for refwork-ctl
    let e = parse(
        "boot_toml_version = 1\n[[unit]]\nid = 0\nexec = \"/x\"\n[unit.control]\nprotocol = \"refwork-ctl\"\nproto_version = 1\n",
    )
    .unwrap_err();
    assert!(e.0.contains("game_dev"), "{e:?}");
    // unknown game_source value
    let e = parse(
        "boot_toml_version = 1\n[[unit]]\nid = 0\nexec = \"/x\"\n[unit.control]\nprotocol = \"refwork-ctl\"\nproto_version = 1\ngame_dev = \"/dev/vdb\"\ngame_source = \"floppy\"\n",
    )
    .unwrap_err();
    assert!(e.0.contains("game_source"), "{e:?}");
    assert!(e.0.contains("floppy"), "{e:?}");
    // non-string game_source
    let e = parse(
        "boot_toml_version = 1\n[[unit]]\nid = 0\nexec = \"/x\"\n[unit.control]\nprotocol = \"refwork-ctl\"\nproto_version = 1\ngame_dev = \"/dev/vdb\"\ngame_source = 1\n",
    )
    .unwrap_err();
    assert!(e.0.contains("game_source"), "{e:?}");
}

#[test]
fn game_source_pv_blk_parses_and_defaults_to_none() {
    let m = parse(
        "boot_toml_version = 1\n[[unit]]\nid = 0\nexec = \"/x\"\n[unit.control]\nprotocol = \"refwork-ctl\"\nproto_version = 1\ngame_dev = \"/dev/vdb\"\ngame_source = \"pv-blk\"\n",
    )
    .unwrap();
    let c = m.unit(0).unwrap().control.as_ref().unwrap();
    assert_eq!(c.game_source, Some(GameSource::PvBlk));
    assert_eq!(c.game_dev.as_deref(), Some("/dev/vdb"));

    // Absent field => None: the pre-materialization behavior.
    let m = parse(
        "boot_toml_version = 1\n[[unit]]\nid = 0\nexec = \"/x\"\n[unit.control]\nprotocol = \"refwork-ctl\"\nproto_version = 1\ngame_dev = \"/dev/vdb\"\n",
    )
    .unwrap();
    assert_eq!(m.unit(0).unwrap().control.as_ref().unwrap().game_source, None);
}

#[test]
fn spec_example_shape_parses() {
    let m = parse(
        r#"
boot_toml_version = 1
[autostart]
unit = 0
[[unit]]
id = 0
exec = "/usr/bin/refwork-harness"
args = ["--config", "/etc/refwork/harness.toml"]
log_mask = 0x1F
[unit.control]
protocol = "refwork-ctl"
proto_version = 1
game_dev = "/dev/vdb"
[[expected_region]]
name = "wram"
layout_version = 1
[[expected_region]]
name = "framebuffer"
layout_version = 1
[[expected_region]]
name = "meta"
layout_version = 1
"#,
    )
    .unwrap();
    let c = m.unit(0).unwrap().control.as_ref().unwrap();
    assert_eq!(c.protocol, "refwork-ctl");
    assert_eq!(c.game_dev.as_deref(), Some("/dev/vdb"));
    assert_eq!(m.expected_regions.len(), 3);
}

// Exact texts and values of the parser and the validation.

#[test]
fn doc_error_texts_name_their_line() {
    assert_eq!(parse_doc("a = 1\nk = 1\nk = 2").unwrap_err(), "line 3: duplicate key \"k\"");
    assert_eq!(parse_doc("[[x]").unwrap_err(), "line 1: malformed [[header]]");
    assert_eq!(parse_doc("[x").unwrap_err(), "line 1: malformed [header]");
    assert_eq!(parse_doc("key").unwrap_err(), "line 1: unrecognized line \"key\"");
    assert_eq!(parse_doc("= 1").unwrap_err(), "line 1: invalid key \"\"");
    assert_eq!(parse_doc("[5bad key]").unwrap_err(), "line 1: invalid table name segment \"5bad key\"");
    assert_eq!(parse_doc("k = \"a\" junk").unwrap_err(), "line 1: trailing junk after string: \" junk\"");
    assert_eq!(parse_doc("k = [\"a\" \"b\"]").unwrap_err(), "line 1: expected ',' in array near \"\\\"b\\\"\"");
    assert_eq!(parse_doc("k = \"ab").unwrap_err(), "line 1: unterminated string");
    assert_eq!(parse_doc("k = \"a\\qb\"").unwrap_err(), "line 1: unsupported escape Some((2, 'q'))");
    assert_eq!(parse_doc("k = [1]").unwrap_err(), "line 1: expected string at \"1\"");
    assert_eq!(parse_doc("k = [\"a\"").unwrap_err(), "line 1: unterminated array \"[\\\"a\\\"\"");
    assert_eq!(
        parse_doc("k = zzz").unwrap_err(),
        "line 1: bad integer \"zzz\": invalid digit found in string"
    );
    assert_eq!(parse_doc("a = 1\n[a]").unwrap_err(), "line 2: a is not a table");
    assert_eq!(parse_doc("[a]\n[[a]]").unwrap_err(), "line 2: a is not an array of tables");
    assert_eq!(parse_doc("[[a.]]").unwrap_err(), "line 1: invalid table name \"\"");
}

#[test]
fn doc_values_and_lines() {
    let v = parse_doc("b = 2\r\na = \"x\\ty\" # c\n\n  c = [\"p\", \"q\",]\nd = 1_000\ne = -0x10\nf = +7").unwrap();
    let t = v.as_table().unwrap();
    assert_eq!(t.len(), 6);
    assert_eq!(t.get("a").unwrap().as_str(), Some("x\ty"));
    assert_eq!(t.get("b").unwrap().as_integer(), Some(2));
    assert_eq!(t.get("c").unwrap().as_array().unwrap().len(), 2);
    assert_eq!(t.get("d").unwrap().as_integer(), Some(1000));
    assert_eq!(t.get("e").unwrap().as_integer(), Some(-16));
    assert_eq!(t.get("f").unwrap().as_integer(), Some(7));
    assert!(t.get("zz").is_none());
    // Key order does not matter to equality: entries are kept sorted.
    assert_eq!(parse_doc("a = 1\nb = 2").unwrap(), parse_doc("b = 2\na = 1").unwrap());
}

#[test]
fn manifest_fault_texts() {
    assert_eq!(parse("").unwrap_err().0, "missing required boot_toml_version");
    assert_eq!(parse("boot_toml_version = \"1\"").unwrap_err().0, "boot_toml_version must be an integer");
    assert_eq!(
        parse("boot_toml_version = -2").unwrap_err().0,
        "unknown boot_toml_version major -2 (agent speaks 1)"
    );
    assert_eq!(
        parse("boot_toml_version = 1\n[[unit]]\nid = 2\nexec = \"/x\"\n[[unit]]\nid = 0\nexec = \"/y\"\n")
            .unwrap_err()
            .0,
        "unit ids must be dense from 0 and unique (got [0, 2])"
    );
    assert_eq!(
        parse("boot_toml_version = 1\n[[unit]]\nid = 0\nexec = \"x\"\n").unwrap_err().0,
        "unit[0]: exec must be an absolute path inside the image (got \"x\")"
    );
    assert_eq!(
        parse("boot_toml_version = 1\n[autostart]\nunit = 3\n").unwrap_err().0,
        "autostart references nonexistent unit id 3"
    );
    assert_eq!(
        parse("boot_toml_version = 1\nunit = 1\n").unwrap_err().0,
        "unit must be an array of tables"
    );
    assert_eq!(
        parse("boot_toml_version = 1\n[[unit]]\nid = 0\nexec = \"/x\"\nlog_mask = -1\n").unwrap_err().0,
        "unit[0]: log_mask must be a u32"
    );
}

#[test]
fn units_come_back_sorted_by_id() {
    let m = parse(
        "boot_toml_version = 1\n[[unit]]\nid = 1\nexec = \"/b\"\n[[unit]]\nid = 0\nexec = \"/a\"\n",
    )
    .unwrap();
    assert_eq!(m.units[0].id, 0);
    assert_eq!(m.units[0].exec_path, "/a");
    assert_eq!(m.units[1].id, 1);
    assert_eq!(m.units[1].log_mask, 0x1F);
    assert!(m.unit(2).is_none());
}
