use cmk::cpm::{render_cmake_lists, to_hex, version_from_tag, CpmInfo};

#[test]
fn hex_is_lowercase_two_digits_per_byte() {
    assert_eq!(to_hex(&[0x00, 0x0f, 0xa5, 0xff]), "000fa5ff");
    assert_eq!(to_hex(&[]), "");
}

#[test]
fn leading_v_is_dropped_from_tags() {
    assert_eq!(version_from_tag("v0.40.2"), "0.40.2");
    assert_eq!(version_from_tag("0.40.2"), "0.40.2");
    assert_eq!(version_from_tag("vv1"), "v1");
    assert_eq!(version_from_tag(""), "");
}

#[test]
fn release_digest_is_sha256_in_hex() {
    let info = CpmInfo::from_release("v0.40.2", b"abc");
    assert_eq!(info.version, "0.40.2");
    assert_eq!(
        info.sha256,
        "ba7816bf8f01cfea414140de5dae2223b00361a396177a9cb410ff61f20015ad"
    );
    let empty = CpmInfo::from_release("1.0", b"");
    assert_eq!(
        empty.sha256,
        "e3b0c44298fc1c149afbf4c8996fb92427ae41e4649b934ca495991b7852b855"
    );
}

#[test]
fn cmake_lists_template_is_filled() {
    let cpm = CpmInfo { version: "0.40.2".to_string(), sha256: "abcd".to_string() };
    let template = "project({name})\nset(V {cpm_version})\nset(H {cpm_hash_sum})\n# {name}\n";
    assert_eq!(
        render_cmake_lists(template, "demo", &cpm),
        "project(demo)\nset(V 0.40.2)\nset(H abcd)\n# demo\n"
    );
}
