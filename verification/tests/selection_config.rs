use spmg::config::Config;
use spmg::config::ConfigLoadError;
use spmg::mission::TaskforceOptions;
use spmg::mission::UnitOption;
use spmg::mission::WeaponState;
use spmg::selection::UnitSelection;
use spmg::selection::UnitTreeItem;
use spmg::selection::UnitTreeSelection;
use spmg::unit_db::UnitType;

#[test]
fn selection_names() {
    let explicit = UnitSelection::new(UnitOption::Unit("civ_ms_kommunist".to_string()));
    assert_eq!(explicit.name(), "civ_ms_kommunist");

    let both = UnitSelection::new(UnitOption::Random {
        nation: Some("Civilian".to_string()),
        utype: Some(UnitType::Ship),
    });
    assert_eq!(both.name(), "<RANDOM Civilian Vessel>");

    let nation_only = UnitSelection::new(UnitOption::Random {
        nation: Some("Civilian".to_string()),
        utype: None,
    });
    assert_eq!(nation_only.name(), "<RANDOM Civilian>");

    let kind_only = UnitSelection::new(UnitOption::Random {
        nation: None,
        utype: Some(UnitType::Submarine),
    });
    assert_eq!(kind_only.name(), "<RANDOM Submarine>");

    let any = UnitSelection::new(UnitOption::Random { nation: None, utype: None });
    assert_eq!(any.name(), "<RANDOM>");

    let many = UnitSelection { unit: UnitOption::Unit("x".to_string()), count: 3 };
    assert_eq!(many.name(), "x x 3");
}

#[test]
fn selection_expands_to_counted_options() {
    let many = UnitSelection { unit: UnitOption::Unit("x".to_string()), count: 3 };
    let options = many.as_options();
    assert_eq!(options.len(), 3);
    for o in &options {
        assert!(matches!(o, UnitOption::Unit(id) if id == "x"));
    }
}

#[test]
fn tree_items_group_into_loose_units_and_formations() {
    let items = vec![
        UnitTreeItem::Unit(UnitSelection::new(UnitOption::Unit("a".to_string()))),
        UnitTreeItem::Unit(UnitSelection::new(UnitOption::Unit("b".to_string()))),
        UnitTreeItem::Formation(1),
        UnitTreeItem::Unit(UnitSelection::new(UnitOption::Unit("c".to_string()))),
        UnitTreeItem::Formation(2),
        UnitTreeItem::Unit(UnitSelection::new(UnitOption::Unit("d".to_string()))),
        UnitTreeItem::Unit(UnitSelection::new(UnitOption::Unit("e".to_string()))),
    ];
    let selection = UnitTreeSelection::from_items(&items);
    assert_eq!(selection.units.len(), 2);
    assert_eq!(selection.units[0].name(), "a");
    assert_eq!(selection.units[1].name(), "b");
    assert_eq!(selection.formations.len(), 2);
    assert_eq!(selection.formations[0].len(), 1);
    assert_eq!(selection.formations[0][0].name(), "c");
    assert_eq!(selection.formations[1].len(), 2);
    assert_eq!(selection.formations[1][0].name(), "d");
    assert_eq!(selection.formations[1][1].name(), "e");
}

#[test]
fn fill_taskforce_round_trips_options() {
    let items = vec![
        UnitTreeItem::Unit(UnitSelection {
            unit: UnitOption::Unit("a".to_string()),
            count: 2,
        }),
        UnitTreeItem::Formation(1),
        UnitTreeItem::Unit(UnitSelection::new(UnitOption::Unit("b".to_string()))),
    ];
    let selection = UnitTreeSelection::from_items(&items);
    let mut side = TaskforceOptions {
        weapon_state: WeaponState::Tight,
        units: vec![],
        formations: vec![],
    };
    selection.fill_taskforce(&mut side);
    assert!(matches!(side.weapon_state, WeaponState::Tight));
    assert_eq!(side.units.len(), 2);
    assert!(matches!(&side.units[0], UnitOption::Unit(id) if id == "a"));
    assert!(matches!(&side.units[1], UnitOption::Unit(id) if id == "a"));
    assert_eq!(side.formations.len(), 1);
    assert_eq!(side.formations[0].units.len(), 1);
    assert!(matches!(&side.formations[0].units[0], UnitOption::Unit(id) if id == "b"));

    let back = UnitTreeSelection::from_taskforce(&side);
    assert_eq!(back.units.len(), 2);
    assert_eq!(back.units[0].count, 1);
    assert_eq!(back.formations.len(), 1);
    assert_eq!(back.formations[0].len(), 1);
}

#[test]
fn config_load_reads_game_root() {
    let config = Config::load("[general]\ngame_root=C:\\Games\\Sea Power\n").unwrap();
    assert_eq!(config.game_root, "C:\\Games\\Sea Power");

    let made = Config::new("D:\\Other");
    assert_eq!(made.game_root, "D:\\Other");
}

#[test]
fn config_load_reports_each_error() {
    let missing = Config::load("[general]\nother=1\n").unwrap_err();
    match missing {
        ConfigLoadError::MissingKey { section, key } => {
            assert_eq!(section, "general");
            assert_eq!(key, "game_root");
        },
        ConfigLoadError::IniParse { .. } => panic!("wrong error variant"),
    }

    let broken = Config::load("[broken\n").unwrap_err();
    assert!(matches!(broken, ConfigLoadError::IniParse { .. }));
}

#[test]
fn install_tree_paths() {
    let root = "C:\\Games\\Sea Power";
    assert_eq!(
        spmg::dir::mission_dir(root),
        "C:\\Games\\Sea Power\\Sea Power_Data\\StreamingAssets\\user\\missions"
    );
    assert_eq!(
        spmg::dir::original_dir(root),
        "C:\\Games\\Sea Power\\Sea Power_Data\\StreamingAssets\\original"
    );
    assert_eq!(
        spmg::dir::vessel_dir(root),
        "C:\\Games\\Sea Power\\Sea Power_Data\\StreamingAssets\\original\\vessels"
    );
    assert_eq!(
        spmg::dir::aircraft_dir(root),
        "C:\\Games\\Sea Power\\Sea Power_Data\\StreamingAssets\\original\\aircraft"
    );
}
