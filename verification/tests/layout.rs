use splogbook::layout::{
    drop_dragged_tile, tile_id_of, tile_index, tile_move_buttons, tile_title, PanelConfig, TileLayout,
};

fn panel(visible: bool, floating: bool, column: usize, order: usize) -> PanelConfig {
    PanelConfig { visible, floating, column, order }
}

/// vfo, qso in column 0; log, cluster in column 1; bandmap, solar,
/// satellites in column 2; world map hidden.
fn docked_layout() -> TileLayout {
    TileLayout {
        panels: [
            panel(true, false, 0, 0),
            panel(true, false, 0, 1),
            panel(true, false, 1, 0),
            panel(true, false, 1, 1),
            panel(true, false, 2, 0),
            panel(true, false, 2, 1),
            panel(true, false, 2, 2),
            panel(false, false, 2, 3),
        ],
        show_bandmap_window: false,
        show_satellites_window: false,
        show_world_map_window: false,
        reset_layout_requested: false,
    }
}

fn names(l: &TileLayout, col: usize) -> Vec<String> {
    l.get_tiles_in_column(col)
}

fn orders(l: &TileLayout, col: usize) -> Vec<usize> {
    l.tiles_in_column(col).iter().map(|&i| l.panels[i].order).collect()
}

#[test]
fn tiles_listed_by_order_then_index() {
    let mut l = docked_layout();
    assert_eq!(names(&l, 0), vec!["vfo", "qso"]);
    assert_eq!(names(&l, 2), vec!["bandmap", "solar", "satellites"]);
    l.panels[4].order = 5;
    l.panels[5].order = 5;
    l.panels[6].order = 1;
    assert_eq!(names(&l, 2), vec!["satellites", "bandmap", "solar"]);
    assert!(names(&l, 3).is_empty());
}

#[test]
fn hidden_and_floating_tiles_are_not_listed() {
    let mut l = docked_layout();
    l.panels[0].floating = true;
    l.panels[3].visible = false;
    assert_eq!(names(&l, 0), vec!["qso"]);
    assert_eq!(names(&l, 1), vec!["log"]);
}

#[test]
fn normalize_numbers_each_column_from_zero() {
    let mut l = docked_layout();
    l.panels[4].order = 10;
    l.panels[5].order = 30;
    l.panels[6].order = 20;
    l.panels[7].order = 77;
    l.normalize_tile_orders();
    assert_eq!(names(&l, 2), vec!["bandmap", "satellites", "solar"]);
    assert_eq!(orders(&l, 2), vec![0, 1, 2]);
    assert_eq!(l.panels[7].order, 77);
    let before: Vec<usize> = l.panels.iter().map(|p| p.order).collect();
    l.normalize_tile_orders();
    let after: Vec<usize> = l.panels.iter().map(|p| p.order).collect();
    assert_eq!(before, after);
}

#[test]
fn move_tile_order_swaps_with_neighbour() {
    let mut l = docked_layout();
    assert!(l.move_tile_order("bandmap", 1));
    assert_eq!(names(&l, 2), vec!["solar", "bandmap", "satellites"]);
    assert_eq!(orders(&l, 2), vec![0, 1, 2]);
    assert!(l.move_tile_order("bandmap", -1));
    assert_eq!(names(&l, 2), vec!["bandmap", "solar", "satellites"]);
}

#[test]
fn move_tile_order_clamps_and_reports_no_change() {
    let mut l = docked_layout();
    assert!(!l.move_tile_order("vfo", -3));
    assert!(l.move_tile_order("vfo", 100));
    assert_eq!(names(&l, 0), vec!["qso", "vfo"]);
    assert!(!l.move_tile_order("world_map", 1));
    assert!(!l.move_tile_order("nonsense", 1));
    assert!(l.move_tile_order("satellites", i32::MIN));
    assert_eq!(names(&l, 2), vec!["satellites", "solar", "bandmap"]);
}

#[test]
fn move_tile_to_inserts_at_position() {
    let mut l = docked_layout();
    l.move_tile_to("log", 2, 1);
    assert_eq!(names(&l, 1), vec!["cluster"]);
    assert_eq!(names(&l, 2), vec!["bandmap", "log", "solar", "satellites"]);
    assert_eq!(orders(&l, 1), vec![0]);
    assert_eq!(orders(&l, 2), vec![0, 1, 2, 3]);
    assert_eq!(l.panels[2].column, 2);
}

#[test]
fn move_tile_to_end_and_within_column() {
    let mut l = docked_layout();
    l.move_tile_to("vfo", 1, 999);
    assert_eq!(names(&l, 0), vec!["qso"]);
    assert_eq!(names(&l, 1), vec!["log", "cluster", "vfo"]);
    l.move_tile_to("satellites", 2, 0);
    assert_eq!(names(&l, 2), vec!["satellites", "bandmap", "solar"]);
}

#[test]
fn move_tile_to_clamps_column() {
    let mut l = docked_layout();
    l.move_tile_to("qso", 7, 0);
    assert_eq!(l.panels[1].column, 2);
    assert_eq!(names(&l, 0), vec!["vfo"]);
}

#[test]
fn move_tile_to_unknown_only_renumbers() {
    let mut l = docked_layout();
    l.panels[0].order = 5;
    l.panels[1].order = 9;
    l.move_tile_to("nonsense", 0, 0);
    assert_eq!(names(&l, 0), vec!["vfo", "qso"]);
    assert_eq!(orders(&l, 0), vec![0, 1]);
}

#[test]
fn move_tile_column_moves_to_end_of_neighbour() {
    let mut l = docked_layout();
    l.move_tile_column("cluster", -1);
    assert_eq!(names(&l, 0), vec!["vfo", "qso", "cluster"]);
    assert_eq!(names(&l, 1), vec!["log"]);
    l.move_tile_column("bandmap", 5);
    assert_eq!(names(&l, 2), vec!["bandmap", "solar", "satellites"]);
    l.move_tile_column("vfo", -1);
    assert_eq!(names(&l, 0), vec!["vfo", "qso", "cluster"]);
}

#[test]
fn popout_and_close_tiles() {
    let mut l = docked_layout();
    l.popout_tile("bandmap");
    assert!(l.panels[4].floating);
    assert!(l.show_bandmap_window);
    assert_eq!(names(&l, 2), vec!["solar", "satellites"]);
    l.close_tile("bandmap");
    assert!(!l.panels[4].visible);
    assert!(!l.show_bandmap_window);
    l.popout_tile("log");
    assert!(l.panels[2].floating);
    assert!(!l.show_satellites_window);
    l.close_tile("satellites");
    assert_eq!(names(&l, 2), vec!["solar"]);
    l.popout_tile("nonsense");
}

#[test]
fn reset_restores_default_placement() {
    let mut l = docked_layout();
    l.show_world_map_window = true;
    l.reset_panel_layout();
    assert!(l.reset_layout_requested);
    assert!(!l.show_world_map_window);
    assert!(l.panels.iter().all(|p| p.floating));
    assert_eq!(l.panels[6].visible, false);
    assert_eq!((l.panels[5].column, l.panels[5].order), (2, 1));
    for c in 0..3 {
        assert!(names(&l, c).is_empty());
    }
}

#[test]
fn tile_identifiers_round_trip() {
    for i in 0..8 {
        assert_eq!(tile_index(tile_id_of(i)), Some(i));
    }
    assert_eq!(tile_index("VFO"), None);
}

#[test]
fn tile_titles() {
    let tr = |k: &str| format!("<{}>", k);
    assert_eq!(tile_title("vfo", tr), "📻 TRANSCEIVER VFO");
    assert_eq!(tile_title("qso", tr), "📝 <tab.new_qso>");
    assert_eq!(tile_title("world_map", tr), "🗺 <map.world_title>");
    assert_eq!(tile_title("satellites", tr), "🛰 ŚLEDZENIE SATELITÓW");
    assert_eq!(tile_title("other", tr), "other");
}

#[test]
fn set_tile_order_changes_one_panel() {
    let mut l = docked_layout();
    let i = tile_index("cluster").unwrap();
    l.set_tile_order("cluster", 7);
    assert_eq!(l.panels[i].order, 7);
    assert_eq!(l.panels[i].column, 1);
    assert_eq!(names(&l, 1), vec!["log".to_string(), "cluster".to_string()]);
    l.set_tile_order("nosuch", 0);
    assert_eq!(l.panels[i].order, 7);
}

#[test]
fn dropping_a_dragged_tile() {
    let mut l = docked_layout();
    let mut dragging = Some("vfo".to_string());
    assert!(drop_dragged_tile(&mut l, &mut dragging, 1, 1));
    assert_eq!(dragging, None);
    assert_eq!(names(&l, 1), vec!["log".to_string(), "vfo".to_string(), "cluster".to_string()]);
    assert_eq!(names(&l, 0), vec!["qso".to_string()]);
    assert!(!drop_dragged_tile(&mut l, &mut dragging, 0, 0));
    assert_eq!(names(&l, 0), vec!["qso".to_string()]);
}

#[test]
fn move_buttons() {
    assert_eq!(tile_move_buttons(0, 1, 0), (false, false, true, false));
    assert_eq!(tile_move_buttons(1, 3, 2), (true, true, false, true));
    assert_eq!(tile_move_buttons(2, 3, 1), (false, true, true, true));
}
