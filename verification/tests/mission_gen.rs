use spmg::mission::FormationOption;
use spmg::mission::GeneralOptions;
use spmg::mission::Mission;
use spmg::mission::MissionOptions;
use spmg::mission::Taskforce;
use spmg::mission::TaskforceOptions;
use spmg::mission::UnitOption;
use spmg::mission::WeaponState;
use spmg::mission::load_template;
use spmg::mission::resolve;
use spmg::unit_db::SourceDoc;
use spmg::unit_db::UnitDb;
use spmg::unit_db::UnitType;
use spmg::unit_db::VesselFile;

const NATIONS: &str = "[civilian]\nNationPrefix=civ\nNationName=Civilian\n\n[usa]\nNationPrefix=usn\nNationName=United States Navy\n";

const NAMES: &str = "[civ_ms_kommunist]\ndefault=MS Kommunist\n\n[usn_ff_knox]\ndefault=USS Knox\n\n[usn_ssn_sturgeon]\ndefault=USS Sturgeon\n";

fn sample_db() -> UnitDb {
    let vessels = vec![
        VesselFile {
            file_name: "civ_ms_kommunist.ini".to_string(),
            text: Some("[General]\nUnitType=Vessel\n".to_string()),
        },
        VesselFile {
            file_name: "usn_ff_knox.ini".to_string(),
            text: Some("[General]\nUnitType=Vessel\n".to_string()),
        },
        VesselFile {
            file_name: "usn_ssn_sturgeon.ini".to_string(),
            text: Some("[General]\nUnitType=Submarine\n".to_string()),
        },
    ];
    UnitDb::new(
        &SourceDoc { path: "nations_reference.ini".to_string(), text: NATIONS.to_string() },
        &SourceDoc { path: "vessel_names.ini".to_string(), text: NAMES.to_string() },
        &vessels,
    )
    .unwrap()
}

fn general() -> GeneralOptions {
    GeneralOptions { latlon: ("10.5".to_string(), "20.25".to_string()), size: (10, 10) }
}

fn empty_side() -> TaskforceOptions {
    TaskforceOptions { weapon_state: WeaponState::Hold, units: vec![], formations: vec![] }
}

#[test]
fn resolve_explicit_is_deterministic() {
    let db = sample_db();
    let option = UnitOption::Unit("civ_ms_kommunist".to_string());
    let first = resolve(&option, &db).unwrap();
    let second = resolve(&option, &db).unwrap();
    assert_eq!(first.id, second.id);
    assert_eq!(first.id, db.by_id("civ_ms_kommunist").unwrap().id);

    let missing = UnitOption::Unit("not_there".to_string());
    assert!(resolve(&missing, &db).is_none());
    assert!(resolve(&missing, &db).is_none());
}

#[test]
fn resolve_random_draws_from_the_pool() {
    let db = sample_db();
    let option = UnitOption::Random { nation: Some("usn".to_string()), utype: None };
    for _ in 0..20 {
        let drawn = resolve(&option, &db).unwrap();
        let pool = db.search(Some("usn"), None);
        assert!(pool.iter().any(|u| u.id == drawn.id));
    }
    // a single-entry pool always resolves to that entry
    let only = UnitOption::Random {
        nation: Some("civ".to_string()),
        utype: Some(UnitType::Ship),
    };
    assert_eq!(resolve(&only, &db).unwrap().id, "civ_ms_kommunist");
}

#[test]
fn empty_random_pool_resolves_to_nothing() {
    let db = sample_db();
    let option = UnitOption::Random {
        nation: Some("xx".to_string()),
        utype: Some(UnitType::Submarine),
    };
    assert!(resolve(&option, &db).is_none());

    let side = TaskforceOptions {
        weapon_state: WeaponState::Free,
        units: vec![option],
        formations: vec![],
    };
    let tf = Taskforce::new(&db, &general(), "Neutral", side);
    assert_eq!(tf.units.submarines.len(), 0);
    assert_eq!(tf.units.ships.len(), 0);
}

#[test]
fn deterministic_explicit_pick_serializes_as_neutral_vessel_one() {
    let db = sample_db();
    let options = MissionOptions {
        general: general(),
        neutral: TaskforceOptions {
            weapon_state: WeaponState::Free,
            units: vec![UnitOption::Unit("civ_ms_kommunist".to_string())],
            formations: vec![],
        },
        blue: empty_side(),
        red: empty_side(),
    };
    let mission = Mission::new(&db, options);
    assert_eq!(mission.neutral.units.ships.len(), 1);
    let mut ini = load_template("").unwrap();
    mission.write_ini(&mut ini);
    assert_eq!(ini.get("NeutralVessel1", "Type").unwrap(), "civ_ms_kommunist");
    assert_eq!(ini.get("Mission", "NumberOfNeutralVessels").unwrap(), "1");
    assert_eq!(ini.get("NeutralVessel1", "Telegraph").unwrap(), "3");
    assert_eq!(ini.get("NeutralVessel1", "CrewSkill").unwrap(), "Trained");
    assert_eq!(ini.get("NeutralVessel1", "Stores").unwrap(), "Full");
    assert_eq!(ini.get("NeutralVessel1", "WeaponStatus").unwrap(), "Free");
    assert_eq!(ini.get("Environment", "MapCenterLatitude").unwrap(), "10.5");
    assert_eq!(ini.get("Environment", "MapCenterLongitude").unwrap(), "20.25");
    assert_eq!(ini.get("Mission", "Neutral_NumberOfFormations").unwrap(), "0");
    assert_eq!(ini.get("Mission", "Taskforce1_NumberOfFormations").unwrap(), "0");
    assert_eq!(ini.get("Mission", "Taskforce2_NumberOfFormations").unwrap(), "0");

    let heading: u32 = ini.get("NeutralVessel1", "Heading").unwrap().parse().unwrap();
    assert!(heading < 360);
    let relpos = ini.get("NeutralVessel1", "RelativePositionInNM").unwrap();
    let parts: Vec<&str> = relpos.split(',').collect();
    assert_eq!(parts.len(), 3);
    assert_eq!(parts[1], "0");
}

#[test]
fn formation_with_three_members_of_mixed_kinds() {
    let db = sample_db();
    let formation = FormationOption {
        units: vec![
            UnitOption::Unit("civ_ms_kommunist".to_string()),
            UnitOption::Unit("usn_ff_knox".to_string()),
            UnitOption::Unit("usn_ssn_sturgeon".to_string()),
        ],
    };
    let side = TaskforceOptions {
        weapon_state: WeaponState::Tight,
        units: vec![],
        formations: vec![formation],
    };
    let tf = Taskforce::new(&db, &general(), "Neutral", side);
    assert_eq!(tf.units.ships.len(), 2);
    assert_eq!(tf.units.submarines.len(), 1);
    assert_eq!(tf.formations.len(), 1);
    assert_eq!(
        tf.formations[0],
        vec![(UnitType::Ship, 0), (UnitType::Ship, 1), (UnitType::Submarine, 0)]
    );

    let entries = tf.ini_entries();
    let descriptor = entries
        .iter()
        .find(|e| e.0 == "Mission" && e.1 == "Neutral_Formation1")
        .map(|e| e.2.clone())
        .unwrap();
    let prefix = descriptor.split('|').next().unwrap();
    let sections: Vec<&str> = prefix.split(',').collect();
    assert_eq!(sections, vec!["NeutralVessel1", "NeutralVessel2", "NeutralSubmarine1"]);
    assert_eq!(
        descriptor,
        "NeutralVessel1,NeutralVessel2,NeutralSubmarine1|Unnamed Group|Circle|7.5|OverrideSpawnPositions"
    );
}

#[test]
fn count_keys_round_trip() {
    let db = sample_db();
    let side = TaskforceOptions {
        weapon_state: WeaponState::Free,
        units: vec![
            UnitOption::Unit("civ_ms_kommunist".to_string()),
            UnitOption::Unit("usn_ff_knox".to_string()),
            UnitOption::Unit("usn_ssn_sturgeon".to_string()),
        ],
        formations: vec![],
    };
    let tf = Taskforce::new(&db, &general(), "Taskforce1", side);
    let mut ini = load_template("").unwrap();
    tf.write_ini(&mut ini);
    let vessels: usize = ini.get("Mission", "NumberOfTaskforce1Vessels").unwrap().parse().unwrap();
    assert_eq!(vessels, tf.units.ships.len());
    let subs: usize = ini
        .get("Mission", "NumberOfTaskforce1Submarines")
        .unwrap()
        .parse()
        .unwrap();
    assert_eq!(subs, tf.units.submarines.len());
    // a kind with no units gets no count key at all
    assert!(ini.get("Mission", "NumberOfTaskforce1Helicopters").is_none());
}

#[test]
fn empty_formation_still_emitted() {
    let db = sample_db();
    let side = TaskforceOptions {
        weapon_state: WeaponState::Free,
        units: vec![],
        formations: vec![FormationOption { units: vec![] }],
    };
    let tf = Taskforce::new(&db, &general(), "Neutral", side);
    assert_eq!(tf.formations.len(), 1);
    assert_eq!(tf.formations[0].len(), 0);
    let mut ini = load_template("").unwrap();
    tf.write_ini(&mut ini);
    assert_eq!(ini.get("Mission", "Neutral_NumberOfFormations").unwrap(), "1");
    assert_eq!(
        ini.get("Mission", "Neutral_Formation1").unwrap(),
        "|Unnamed Group|Circle|7.5|OverrideSpawnPositions"
    );
}

#[test]
fn ordinal_stability_across_loose_and_formation_units() {
    let db = sample_db();
    let side = TaskforceOptions {
        weapon_state: WeaponState::Free,
        units: vec![UnitOption::Unit("civ_ms_kommunist".to_string())],
        formations: vec![
            FormationOption { units: vec![UnitOption::Unit("usn_ff_knox".to_string())] },
            FormationOption {
                units: vec![
                    UnitOption::Unit("usn_ssn_sturgeon".to_string()),
                    UnitOption::Unit("civ_ms_kommunist".to_string()),
                ],
            },
        ],
    };
    let tf = Taskforce::new(&db, &general(), "Neutral", side);
    // loose ship takes ordinal 0, formation ships continue at 1 and 2
    assert_eq!(tf.units.ships.len(), 3);
    assert_eq!(tf.formations[0], vec![(UnitType::Ship, 1)]);
    assert_eq!(tf.formations[1], vec![(UnitType::Submarine, 0), (UnitType::Ship, 2)]);
    // every referenced ordinal indexes its list, and no pair repeats
    let mut seen: Vec<(UnitType, usize)> = Vec::new();
    for formation in &tf.formations {
        for r in formation {
            assert!(r.1 < tf.units.len_of(r.0));
            assert!(!seen.contains(r));
            seen.push(*r);
        }
    }
    let weapon = WeaponState::Tight;
    assert_eq!(weapon.to_string(), "Tight");
}

#[test]
fn unit_headings_are_in_range() {
    let db = sample_db();
    let side = TaskforceOptions {
        weapon_state: WeaponState::Free,
        units: vec![
            UnitOption::Unit("civ_ms_kommunist".to_string()),
            UnitOption::Unit("civ_ms_kommunist".to_string()),
        ],
        formations: vec![],
    };
    let tf = Taskforce::new(&db, &general(), "Neutral", side);
    // the same unit may legitimately be picked more than once
    assert_eq!(tf.units.ships.len(), 2);
    for u in &tf.units.ships {
        assert!(u.heading < 360);
        assert_eq!(u.id, "civ_ms_kommunist");
    }
}

#[test]
fn unit_write_ini_fills_its_section() {
    let unit = spmg::mission::Unit::new(&general(), "civ_ms_kommunist");
    assert_eq!(unit.id, "civ_ms_kommunist");
    let mut ini = load_template("").unwrap();
    unit.write_ini(&mut ini, "NeutralVessel1");
    assert_eq!(ini.get("NeutralVessel1", "Type").unwrap(), "civ_ms_kommunist");
    assert_eq!(ini.get("NeutralVessel1", "Telegraph").unwrap(), "3");
    assert_eq!(ini.get("NeutralVessel1", "CrewSkill").unwrap(), "Trained");
    assert_eq!(ini.get("NeutralVessel1", "Stores").unwrap(), "Full");
    assert_eq!(
        ini.get("NeutralVessel1", "Heading").unwrap(),
        unit.heading.to_string()
    );
}

#[test]
fn positions_stay_inside_the_mission_box() {
    for _ in 0..50 {
        let unit = spmg::mission::Unit::new(&general(), "x");
        let x: f32 = unit.position.0.parse().unwrap();
        let y: f32 = unit.position.1.parse().unwrap();
        // the box is 10 by 10 nautical miles, centered on the origin
        assert!(x >= -5.0 && x <= 5.0);
        assert!(y >= -5.0 && y <= 5.0);
    }
}

#[test]
fn placement_counts_match_resolvable_options() {
    let db = sample_db();
    let side = TaskforceOptions {
        weapon_state: WeaponState::Free,
        units: vec![
            UnitOption::Unit("civ_ms_kommunist".to_string()),
            UnitOption::Unit("unknown_id".to_string()),
            UnitOption::Random { nation: Some("usn".to_string()), utype: None },
            UnitOption::Random { nation: Some("xx".to_string()), utype: None },
        ],
        formations: vec![FormationOption {
            units: vec![
                UnitOption::Unit("usn_ssn_sturgeon".to_string()),
                UnitOption::Unit("also_unknown".to_string()),
            ],
        }],
    };
    let tf = Taskforce::new(&db, &general(), "Neutral", side);
    let total = tf.units.ships.len()
        + tf.units.submarines.len()
        + tf.units.helicopters.len()
        + tf.units.fixed_wings.len();
    // two loose options and one formation member resolve; the rest drop out
    assert_eq!(total, 3);
    assert_eq!(tf.formations[0].len(), 1);
}
