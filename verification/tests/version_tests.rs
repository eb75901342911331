use migoto_loader::version::{
    description_query, description_text, is_3dmigoto, is_too_old, parse_translations, product_version,
};

#[test]
fn translations_are_little_endian_pairs() {
    let bytes = [0x09, 0x04, 0xb0, 0x04, 0x00, 0x00, 0xe4, 0x04, 0xff];
    assert_eq!(parse_translations(&bytes), vec![(0x0409, 0x04b0), (0x0000, 0x04e4)]);
    assert_eq!(parse_translations(&[]), vec![]);
    assert_eq!(parse_translations(&[1, 2, 3]), vec![]);
}

#[test]
fn description_query_format() {
    assert_eq!(description_query(0x0409, 0x04b0), "\\StringFileInfo\\040904b0\\FileDescription");
    assert_eq!(description_query(0xABCD, 0x0001), "\\StringFileInfo\\abcd0001\\FileDescription");
    assert_eq!(
        description_query(0x0409, 0x04e4),
        format!("\\StringFileInfo\\{:04x}{:04x}\\FileDescription", 0x0409, 0x04e4)
    );
}

#[test]
fn description_drops_trailing_nuls() {
    assert_eq!(description_text(b"3Dmigoto d3d11.dll\0\0"), "3Dmigoto d3d11.dll");
    assert_eq!(description_text(b"a\0b\0"), "a\0b");
    assert_eq!(description_text(b""), "");
}

#[test]
fn invalid_utf8_description_is_empty() {
    assert_eq!(description_text(&[0xff, 0xfe, 0x33]), "");
    assert_eq!(description_text(&[0xed, 0xa0, 0x80]), "");
}

#[test]
fn description_names_3dmigoto() {
    assert!(is_3dmigoto("3Dmigoto"));
    assert!(is_3dmigoto("3Dmigoto d3d11.dll"));
    assert!(!is_3dmigoto("3DMigoto"));
    assert!(!is_3dmigoto("3Dmig"));
    assert!(!is_3dmigoto("Direct3D 11 Runtime"));
    assert!(is_3dmigoto(description_text(b"3Dmigoto\0")));
}

#[test]
fn product_version_parts() {
    assert_eq!(product_version(0x0001_0003, 0x000f_0002), (1, 3, 15));
    assert_eq!(product_version(0xffff_ffff, 0xffff_0000), (0xffff, 0xffff, 0xffff));
}

#[test]
fn too_old_below_1_3_15() {
    assert!(is_too_old(0x0001_0003, 0x000e_ffff));
    assert!(!is_too_old(0x0001_0003, 0x000f_0000));
    assert!(is_too_old(0x0001_0002, 0xffff_ffff));
    assert!(!is_too_old(0x0001_0004, 0));
    assert!(!is_too_old(0x0002_0000, 0));
    assert!(is_too_old(0, 0));
}

#[test]
fn too_old_agrees_with_version_order() {
    for ms in [0u32, 0x0001_0002, 0x0001_0003, 0x0001_0004, 0x0002_0000] {
        for ls in [0u32, 0x000e_0000, 0x000f_0000, 0x0010_0000] {
            let v = product_version(ms, ls);
            assert_eq!(is_too_old(ms, ls), v < (1, 3, 15), "{:x} {:x}", ms, ls);
        }
    }
}
