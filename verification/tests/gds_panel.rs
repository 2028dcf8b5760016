use pcb_extract::gds_view::manifest::{palette_color, Layer};
use pcb_extract::gds_view::panel::{format_count, reorder_layer};
use pcb_extract::gds_view::transform::{clamp_to_grid, prefetch_ring, tile_load_key, tile_url, tiles_per_axis, TileRange};
use pcb_extract::gds_view::state::{default_layer_order, id_from_path, merge_layer_keys, storage_prefix, MergedLayer};

#[test]
fn design_id_comes_from_g_paths() {
    assert_eq!(id_from_path("/g/abc123").as_deref(), Some("abc123"));
    assert_eq!(id_from_path("g/abc").as_deref(), Some("abc"));
    assert_eq!(id_from_path("///g/abc/extra").as_deref(), Some("abc"));
    assert_eq!(id_from_path("/g/"), None);
    assert_eq!(id_from_path("/g"), None);
    assert_eq!(id_from_path("/h/abc"), None);
    assert_eq!(id_from_path(""), None);
    assert_eq!(id_from_path("/gg/abc"), None);
}

#[test]
fn counts_get_thousands_separators() {
    assert_eq!(format_count(0), "0");
    assert_eq!(format_count(999), "999");
    assert_eq!(format_count(1000), "1,000");
    assert_eq!(format_count(1234567), "1,234,567");
    assert_eq!(format_count(100000), "100,000");
    assert_eq!(format_count(u64::MAX), "18,446,744,073,709,551,615");
}

#[test]
fn separators_are_all_that_is_added() {
    for n in [0u64, 7, 12, 123, 1234, 98765, 1_000_000, 4_294_967_296] {
        let s = format_count(n);
        assert_eq!(s.replace(',', ""), n.to_string());
    }
}

#[test]
fn reordering_moves_one_layer() {
    let mut v = vec!["a", "b", "c", "d"];
    assert!(reorder_layer(&mut v, 0, 2));
    assert_eq!(v, ["b", "c", "a", "d"]);
    assert!(reorder_layer(&mut v, 3, 0));
    assert_eq!(v, ["d", "b", "c", "a"]);
    assert!(!reorder_layer(&mut v, 1, 1));
    assert!(!reorder_layer(&mut v, 4, 0));
    assert!(!reorder_layer(&mut v, 0, 9));
    assert_eq!(v, ["d", "b", "c", "a"]);
}

#[test]
fn storage_keys_are_per_design() {
    assert_eq!(storage_prefix("abc"), "gds:abc:");
}

fn manifest_layer(key: &str, layer: i64, datatype: i64) -> Layer {
    Layer { key: key.to_string(), layer, datatype, name: None, count: 0, default_color: None, default_order: None }
}

#[test]
fn layer_keys_names_and_colours() {
    let l = manifest_layer("10/0", 10, 0);
    assert!(!l.is_lod());
    assert_eq!(l.tile_key(), "10_0");
    assert_eq!(l.display_name(), "L10/0");
    assert_eq!(l.default_color(), palette_color("10/0"));

    let lod = manifest_layer("__lod", 0, 0);
    assert!(lod.is_lod());
    assert_eq!(lod.tile_key(), "__lod");
    assert_eq!(lod.display_name(), "omitted (LOD)");

    let neg = manifest_layer("-3/-7", -3, -7);
    assert_eq!(neg.tile_key(), "-3_-7");

    let mut named = manifest_layer("1/0", 1, 0);
    named.name = Some("metal1".to_string());
    named.default_color = Some("#ff0000".to_string());
    assert_eq!(named.display_name(), "metal1");
    assert_eq!(named.default_color(), "#ff0000");
    named.name = Some(String::new());
    named.default_color = Some(String::new());
    assert_eq!(named.display_name(), "L1/0");
    assert_eq!(named.default_color(), palette_color("1/0"));
}

#[test]
fn layers_sort_by_default_order_then_manifest_order() {
    let mut layers = vec![manifest_layer("a", 1, 0), manifest_layer("b", 2, 0), manifest_layer("c", 3, 0), manifest_layer("d", 4, 0)];
    layers[0].default_order = Some(5);
    layers[2].default_order = Some(-1);
    // b keeps index 1 and d index 3 as keys; a has 5; c has -1.
    assert_eq!(default_layer_order(&layers), vec![2, 1, 3, 0]);
    layers[3].default_order = Some(1);
    assert_eq!(default_layer_order(&layers), vec![2, 1, 3, 0]);
    layers[1].default_order = Some(7);
    assert_eq!(default_layer_order(&layers), vec![2, 3, 0, 1]);
    assert!(default_layer_order(&[]).is_empty());
}

#[test]
fn persisted_layers_merge_with_the_manifest() {
    let keys = |v: &[&str]| v.iter().map(|s| s.to_string()).collect::<Vec<_>>();
    let stored = keys(&["10_0", "gone_1", "2_0"]);
    let defaults = keys(&["2_0", "10_0", "new_3", "__lod"]);
    let merged = merge_layer_keys(&stored, &defaults);
    assert_eq!(
        merged,
        vec![MergedLayer::Stored(0), MergedLayer::Stored(2), MergedLayer::Default(2), MergedLayer::Default(3)]
    );
    assert_eq!(merge_layer_keys(&[], &defaults), vec![
        MergedLayer::Default(0),
        MergedLayer::Default(1),
        MergedLayer::Default(2),
        MergedLayer::Default(3)
    ]);
    assert!(merge_layer_keys(&stored, &[]).is_empty());
}

#[test]
fn tile_grid_ranges_and_addresses() {
    assert_eq!(tiles_per_axis(0), 1);
    assert_eq!(tiles_per_axis(10), 1024);
    assert_eq!(tiles_per_axis(31), 1 << 31);
    let r = clamp_to_grid(-3, 2, 9, 40, 8);
    assert_eq!(r, TileRange { x0: 0, y0: 2, x1: 7, y1: 7 });
    assert_eq!(prefetch_ring(TileRange { x0: 0, y0: 3, x1: 5, y1: 7 }, 8), TileRange { x0: 0, y0: 2, x1: 6, y1: 7 });
    assert_eq!(prefetch_ring(TileRange { x0: 0, y0: 0, x1: 0, y1: 0 }, 1), TileRange { x0: 0, y0: 0, x1: 0, y1: 0 });
    assert_eq!(tile_url("abc", 3, 4, -1, "10_0"), "/g/abc/tiles/3/4/-1/10_0.svgz");
    assert_eq!(tile_load_key(3, 4, 5, "__lod"), "3:4:5:__lod");
}
