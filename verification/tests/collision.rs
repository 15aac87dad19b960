use qwasm2::binary::{try_read_i32, try_read_u16, try_read_u32};
use qwasm2::collision::{
    AreaConnectivity, CArea, CAreaPortal, com_block_checksum, load_area_portals, load_areas, load_brush_sides, load_brushes,
    load_leaf_brushes, load_leafs, load_nodes, load_surfaces, md4_digest, read_bsp_header,
    BSPVERSION, IDBSPHEADER,
};
use qwasm2::error::Q2Error;

fn drop_message<T>(r: Result<T, Q2Error>) -> String {
    match r {
        Err(Q2Error::Drop(m)) => m,
        Err(_) => panic!("not a drop error"),
        Ok(_) => panic!("expected an error"),
    }
}

#[test]
fn bsp_magic_and_version() {
    assert_eq!(IDBSPHEADER, 0x50534249);
    assert_eq!(BSPVERSION, 38);
}

#[test]
fn read_helpers() {
    let data: Vec<u8> = vec![0x01, 0x02, 0x03, 0x04, 0x05, 0x06];
    assert_eq!(try_read_u16(&data, 0).unwrap(), 0x0201);
    assert_eq!(try_read_u32(&data, 0).unwrap(), 0x04030201);
    assert_eq!(try_read_i32(&data, 0).unwrap(), 0x04030201);
}

#[test]
fn md4_empty_digest() {
    let digest = md4_digest(b"");
    assert_eq!(digest[0], 0xe0cf_d631);
    assert_eq!(digest[1], 0x31e9_6ad1);
    assert_eq!(digest[2], 0xd759_3cb7);
    assert_eq!(digest[3], 0xc089_c0e0);
}

#[test]
fn com_block_checksum_empty() {
    let expected = 0xe0cf_d631_u32 ^ 0x31e9_6ad1 ^ 0xd759_3cb7 ^ 0xc089_c0e0;
    assert_eq!(expected, 0xc6f6_40b7);
    assert_eq!(com_block_checksum(b""), expected);
}

fn md4_hex(data: &[u8]) -> String {
    md4_digest(data).iter().flat_map(|w| w.to_le_bytes()).map(|b| format!("{:02x}", b)).collect()
}

#[test]
fn md4_rfc1320_vectors() {
    assert_eq!(md4_hex(b"a"), "bde52cb31de33e46245e05fbdbd6fb24");
    assert_eq!(md4_hex(b"abc"), "a448017aaf21d8525fc10ae87aa6729d");
    assert_eq!(md4_hex(b"message digest"), "d9130a8164549fe818874806e1c7014b");
    assert_eq!(
        md4_hex(b"12345678901234567890123456789012345678901234567890123456789012345678901234567890"),
        "e33b4ddc9c38f2199c3e7b164fcc0536"
    );
}

fn header(lumps: &[(u32, u32); 19]) -> Vec<u8> {
    let mut d = Vec::new();
    d.extend_from_slice(&IDBSPHEADER.to_le_bytes());
    d.extend_from_slice(&BSPVERSION.to_le_bytes());
    for (o, l) in lumps {
        d.extend_from_slice(&o.to_le_bytes());
        d.extend_from_slice(&l.to_le_bytes());
    }
    d
}

#[test]
fn bsp_header_checks() {
    let mut lumps = [(0u32, 0u32); 19];
    lumps[4] = (160, 28);
    let d = header(&lumps);
    let dir = read_bsp_header(&d).unwrap();
    assert_eq!(dir.len(), 19);
    assert_eq!(dir[4], (160, 28));
    assert_eq!(drop_message(read_bsp_header(&d[..100])), "BSP file too small");
    let mut bad = d.clone();
    bad[0] = b'X';
    assert_eq!(drop_message(read_bsp_header(&bad)), "CMod_LoadBrushModel: wrong magic 0x50534258");
    let mut v = d.clone();
    v[4] = 39;
    assert_eq!(drop_message(read_bsp_header(&v)), "CMod_LoadBrushModel: wrong version 39 (expected 38)");
}

fn le32(v: i32) -> [u8; 4] {
    v.to_le_bytes()
}

#[test]
fn nodes_and_errors() {
    let mut d = vec![0u8; 4];
    d.extend_from_slice(&le32(7));
    d.extend_from_slice(&le32(-2));
    d.extend_from_slice(&le32(3));
    d.extend_from_slice(&[0u8; 16]);
    let nodes = load_nodes(&d, (4, 28)).unwrap();
    assert_eq!(nodes.len(), 1);
    assert_eq!(nodes[0].plane_idx, 7);
    assert_eq!(nodes[0].children, [-2, 3]);
    assert_eq!(drop_message(load_nodes(&d, (4, 27))), "Mod_LoadNodes: funny lump size");
    assert_eq!(drop_message(load_nodes(&d, (4, 0))), "Map has no nodes");
    assert_eq!(drop_message(load_nodes(&d, (4, 56))), "i32 read out of bounds");
}

fn leaf(contents: i32, cluster: i16, area: i16, first: u16, num: u16) -> Vec<u8> {
    let mut d = Vec::new();
    d.extend_from_slice(&le32(contents));
    d.extend_from_slice(&cluster.to_le_bytes());
    d.extend_from_slice(&area.to_le_bytes());
    d.extend_from_slice(&[0u8; 16]);
    d.extend_from_slice(&first.to_le_bytes());
    d.extend_from_slice(&num.to_le_bytes());
    d
}

#[test]
fn leafs_find_empty_leaf() {
    let mut d = leaf(1, -1, 0, 0, 0);
    d.extend(leaf(1, 2, 1, 0, 1));
    d.extend(leaf(0, 3, 1, 1, 2));
    let (leafs, empty) = load_leafs(&d, (0, 84)).unwrap();
    assert_eq!(leafs.len(), 3);
    assert_eq!(empty, 2);
    assert_eq!(leafs[1].cluster, 2);
    assert_eq!(leafs[2].num_leaf_brushes, 2);
    assert_eq!(drop_message(load_leafs(&d, (0, 56))), "Map does not have an empty leaf");
    let mut e = leaf(0, 0, 0, 0, 0);
    e.extend(leaf(0, 0, 0, 0, 0));
    assert_eq!(drop_message(load_leafs(&e, (0, 56))), "Map leaf 0 is not CONTENTS_SOLID");
    assert_eq!(drop_message(load_leafs(&d[..30], (0, 56))), "i32 read out of bounds");
    assert_eq!(drop_message(load_leafs(&d[..34], (0, 56))), "i16 read out of bounds");
    assert_eq!(drop_message(load_leafs(&d[..40], (0, 56))), "u16 read out of bounds");
}

#[test]
fn brushes_sides_and_leaf_brushes() {
    let mut d = Vec::new();
    d.extend_from_slice(&le32(5));
    d.extend_from_slice(&le32(6));
    d.extend_from_slice(&le32(1));
    let b = load_brushes(&d, (0, 12)).unwrap();
    assert_eq!((b[0].first_brush_side, b[0].num_sides, b[0].contents, b[0].check_count), (5, 6, 1, 0));
    assert_eq!(load_brushes(&d, (0, 0)).unwrap().len(), 0);
    let lb = load_leaf_brushes(&[9, 0, 1, 1], (0, 4)).unwrap();
    assert_eq!(lb, vec![9u16, 257]);
    assert_eq!(drop_message(load_leaf_brushes(&[9, 0], (0, 3))), "Mod_LoadLeafBrushes: funny lump size");
    let sides = [3u8, 0, 255, 255, 4, 0, 1, 0];
    let s = load_brush_sides(&sides, (0, 8), 2).unwrap();
    assert_eq!((s[0].plane_idx, s[0].surface_idx), (3, -1));
    assert_eq!((s[1].plane_idx, s[1].surface_idx), (4, 1));
    assert_eq!(drop_message(load_brush_sides(&sides, (0, 8), 1)), "Bad brushside texinfo");
}

#[test]
fn surfaces_areas_and_portals() {
    let mut t = vec![0u8; 32];
    t.extend_from_slice(&le32(8));
    t.extend_from_slice(&le32(100));
    let mut name = [0u8; 32];
    name[..9].copy_from_slice(b"e1u1/sky1");
    t.extend_from_slice(&name);
    t.extend_from_slice(&le32(-1));
    let s = load_surfaces(&t, (0, 76)).unwrap();
    assert_eq!(s[0].name, "e1u1/sky1");
    assert_eq!((s[0].flags, s[0].value), (8, 100));
    assert_eq!(drop_message(load_surfaces(&t, (0, 0))), "Map with no surfaces");
    let mut a = Vec::new();
    a.extend_from_slice(&le32(2));
    a.extend_from_slice(&le32(0));
    let areas = load_areas(&a, (0, 8)).unwrap();
    assert_eq!((areas[0].num_area_portals, areas[0].first_area_portal, areas[0].flood_num), (2, 0, 0));
    let portals = load_area_portals(&a, (0, 8)).unwrap();
    assert_eq!((portals[0].portal_num, portals[0].other_area), (2, 0));
    assert_eq!(drop_message(load_areas(&a, (0, 9))), "Mod_LoadAreas: funny lump size");
    assert_eq!(drop_message(load_area_portals(&a, (0, 16))), "i32 read out of bounds");
}

fn area(num: i32, first: i32) -> CArea {
    CArea { num_area_portals: num, first_area_portal: first, flood_num: 0, flood_valid: 0 }
}

#[test]
fn area_portals_connect_when_open() {
    let areas = vec![area(0, 0), area(1, 0), area(2, 1), area(1, 3)];
    let portals = vec![
        CAreaPortal { portal_num: 0, other_area: 2 },
        CAreaPortal { portal_num: 0, other_area: 1 },
        CAreaPortal { portal_num: 1, other_area: 3 },
        CAreaPortal { portal_num: 1, other_area: 2 },
    ];
    let mut c = AreaConnectivity::empty();
    assert!(c.areas_connected(0, 0));
    c.load(areas, portals);
    assert!(!c.areas_connected(1, 2));
    assert!(!c.areas_connected(2, 3));
    assert!(c.areas_connected(2, 2));
    c.set_area_portal_state(0, true);
    assert!(c.areas_connected(1, 2));
    assert!(c.areas_connected(2, 1));
    assert!(!c.areas_connected(1, 3));
    c.set_area_portal_state(1, true);
    assert!(c.areas_connected(1, 3));
    c.set_area_portal_state(0, false);
    assert!(!c.areas_connected(1, 2));
    assert!(c.areas_connected(2, 3));
    c.set_area_portal_state(5000, true);
    assert!(!c.areas_connected(1, 2));
    assert!(!c.areas_connected(-1, 1));
    assert!(!c.areas_connected(1, 4));
}
