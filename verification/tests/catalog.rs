use spmg::unit_db::SourceDoc;
use spmg::unit_db::UnitDb;
use spmg::unit_db::UnitDbError;
use spmg::unit_db::UnitType;
use spmg::unit_db::VesselFile;

fn doc(path: &str, text: &str) -> SourceDoc {
    SourceDoc { path: path.to_string(), text: text.to_string() }
}

fn vessel(file_name: &str, text: &str) -> VesselFile {
    VesselFile { file_name: file_name.to_string(), text: Some(text.to_string()) }
}

const NATIONS: &str = "[civilian]\nNationPrefix=civ\nNationName=Civilian\n\n[usa]\nNationPrefix=usn\nNationName=United States Navy\n";

const NAMES: &str = "[civ_ms_kommunist]\ndefault=MS Kommunist,MS Something\n\n[usn_ssn_sturgeon]\ndefault=USS Sturgeon\n\n[usn_ff_knox]\ndefault=USS Knox\n\n[xyz_no_nation]\ndefault=Ghost\n\n[civ_no_type]\ndefault=No Type\n";

fn sample_db() -> UnitDb {
    let vessels = vec![
        vessel("civ_ms_kommunist.ini", "[General]\nUnitType=Vessel\n"),
        vessel("usn_ssn_sturgeon.ini", "[General]\nUnitType=Submarine\n"),
        vessel("usn_ff_knox.ini", "[General]\nUnitType=VESSEL\n"),
        // skipped: no name registered for this id
        vessel("usn_unnamed.ini", "[General]\nUnitType=Vessel\n"),
        // skipped: nation prefix xyz is unknown
        vessel("xyz_no_nation.ini", "[General]\nUnitType=Vessel\n"),
        // skipped: unrecognized type string
        vessel("civ_no_type.ini", "[General]\nUnitType=Zeppelin\n"),
        // skipped: variant-group file
        vessel("civ_ms_kommunist_variants.ini", "[General]\nUnitType=Vessel\n"),
        // skipped: no underscore in the stem
        vessel("plainname.ini", "[General]\nUnitType=Vessel\n"),
    ];
    UnitDb::new(&doc("nations_reference.ini", NATIONS), &doc("vessel_names.ini", NAMES), &vessels)
        .unwrap()
}

#[test]
fn catalog_completeness_and_skip_rule() {
    let db = sample_db();
    let kommunist = db.by_id("civ_ms_kommunist").unwrap();
    assert_eq!(kommunist.name, "MS Kommunist");
    assert_eq!(kommunist.nation.id, "civ");
    assert_eq!(kommunist.nation.name, "Civilian");
    assert!(matches!(kommunist.utype, UnitType::Ship));

    let sturgeon = db.by_id("usn_ssn_sturgeon").unwrap();
    assert!(matches!(sturgeon.utype, UnitType::Submarine));
    assert_eq!(sturgeon.nation.id, "usn");

    // case-insensitive type strings are recognized
    let knox = db.by_id("usn_ff_knox").unwrap();
    assert!(matches!(knox.utype, UnitType::Ship));

    // every skip reason leaves no entry behind
    assert!(db.by_id("usn_unnamed").is_none());
    assert!(db.by_id("xyz_no_nation").is_none());
    assert!(db.by_id("civ_no_type").is_none());
    assert!(db.by_id("civ_ms_kommunist_variants").is_none());
    assert!(db.by_id("plainname").is_none());
    assert_eq!(db.all().len(), 3);
}

#[test]
fn catalog_fails_only_on_reference_documents() {
    let bad = doc("nations_reference.ini", "[broken\n");
    let good_names = doc("vessel_names.ini", NAMES);
    let err = UnitDb::new(&bad, &good_names, &vec![]).unwrap_err();
    match err {
        UnitDbError::ParseError { file, .. } => assert_eq!(file, "nations_reference.ini"),
        UnitDbError::IOError(_) => panic!("wrong error variant"),
    }

    // a malformed per-unit file is skipped, not fatal
    let vessels = vec![vessel("civ_ms_kommunist.ini", "[broken\n")];
    let db = UnitDb::new(
        &doc("nations_reference.ini", NATIONS),
        &doc("vessel_names.ini", NAMES),
        &vessels,
    )
    .unwrap();
    assert!(db.by_id("civ_ms_kommunist").is_none());
}

#[test]
fn search_filter_correctness() {
    let db = sample_db();
    let all = db.search(None, None);
    assert_eq!(all.len(), db.all().len());

    let usn_ships = db.search(Some("usn"), Some(UnitType::Ship));
    assert_eq!(usn_ships.len(), 1);
    assert_eq!(usn_ships[0].id, "usn_ff_knox");

    let subs = db.search(None, Some(UnitType::Submarine));
    assert_eq!(subs.len(), 1);
    assert_eq!(subs[0].id, "usn_ssn_sturgeon");

    let civ = db.search(Some("civ"), None);
    assert_eq!(civ.len(), 1);
    assert_eq!(civ[0].id, "civ_ms_kommunist");

    assert_eq!(db.search(Some("xx"), None).len(), 0);
    assert_eq!(db.search(Some("usn"), Some(UnitType::Helicopter)).len(), 0);
}

#[test]
fn nations_sorted_by_id() {
    let db = sample_db();
    let nations = db.nations();
    assert_eq!(nations.len(), 2);
    assert_eq!(nations[0].id, "civ");
    assert_eq!(nations[1].id, "usn");
}

#[test]
fn unit_type_labels() {
    assert_eq!(UnitType::Ship.capitalised_singular(), "Vessel");
    assert_eq!(UnitType::Submarine.capitalised_singular(), "Submarine");
    assert_eq!(UnitType::Helicopter.capitalised_singular(), "Helicopter");
    assert_eq!(UnitType::FixedWing.capitalised_singular(), "Aircraft");
    assert_eq!(UnitType::Ship.calitalised_plural(), "Vessels");
    assert_eq!(UnitType::Submarine.calitalised_plural(), "Submarines");
    assert_eq!(UnitType::Helicopter.calitalised_plural(), "Helicopters");
    assert_eq!(UnitType::FixedWing.calitalised_plural(), "Aircraft");
}

#[test]
fn unit_type_parsing() {
    assert!(matches!(UnitType::try_from("Vessel"), Ok(UnitType::Ship)));
    assert!(matches!(UnitType::try_from("VESSEL"), Ok(UnitType::Ship)));
    assert!(matches!(UnitType::try_from("submarine"), Ok(UnitType::Submarine)));
    assert!(matches!(UnitType::try_from("Helicopter"), Ok(UnitType::Helicopter)));
    assert!(matches!(UnitType::try_from("aircraft"), Ok(UnitType::FixedWing)));
    let err = UnitType::try_from("Zeppelin").unwrap_err();
    assert_eq!(err.0, "Zeppelin");
    assert_eq!(err.message(), "unknown unit type Zeppelin");
}

#[test]
fn unit_type_all_lists_each_kind_once() {
    let all = UnitType::all();
    assert_eq!(all.len(), 4);
    assert!(matches!(all[0], UnitType::Ship));
    assert!(matches!(all[1], UnitType::Submarine));
    assert!(matches!(all[2], UnitType::Helicopter));
    assert!(matches!(all[3], UnitType::FixedWing));
}

#[test]
fn helper_string_functions() {
    assert_eq!(spmg::usize_to_string(0), "0");
    assert_eq!(spmg::usize_to_string(907), "907");
    let parts = spmg::unit_db::split_name_parts("A,B,C");
    assert_eq!(parts, vec!["A".to_string(), "B".to_string(), "C".to_string()]);
    assert_eq!(spmg::unit_db::split_name_parts("Solo"), vec!["Solo".to_string()]);
    assert_eq!(spmg::unit_db::path_to_id("civ_x.ini").unwrap(), "civ_x");
    assert_eq!(spmg::unit_db::path_to_id("noext").unwrap(), "noext");
    assert!(spmg::unit_db::path_to_id("").is_none());
}
