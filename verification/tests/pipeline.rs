//! End-to-end checks of the pipeline: parsing raw JSON into a table,
//! flattening it into the snapshot schema, and consolidating
//! snapshots into the canonical table.

use battlelog::consolidate::consolidate;
use battlelog::normalize::normalize;
use battlelog::parse::parse_json;
use battlelog::parse::parse_records;
use battlelog::JsonValue;
use battlelog::PipelineError;
use battlelog::Table;

fn find(cols: &Vec<Vec<u8>>, name: &[u8]) -> usize {
    for (i, c) in cols.iter().enumerate() {
        if c.as_slice() == name {
            return i;
        }
    }
    panic!("column not found");
}

fn s(text: &str) -> JsonValue {
    JsonValue::Str(text.as_bytes().to_vec())
}

fn n(v: i64) -> JsonValue {
    JsonValue::Int(v)
}

fn b(text: &str) -> Vec<u8> {
    text.as_bytes().to_vec()
}

/// One raw battle record as the API would serve it, with the given
/// side sizes and crown counts.
fn record(team_n: usize, opp_n: usize, team_crowns: i64, opp_crowns: i64, time: &str) -> String {
    let entry = |crowns: i64| {
        format!(
            "{{\"tag\":\"#P1\",\"name\":\"Ada\",\"startingTrophies\":5000,\"trophyChange\":30,\"crowns\":{},\"kingTowerHitPoints\":1000,\"princessTowersHitPoints\":[500],\"clan\":{{\"tag\":\"#C1\",\"name\":\"Club\",\"badgeId\":7}},\"cards\":[{{\"name\":\"Knight\",\"id\":1,\"level\":9}}]}}",
            crowns
        )
    };
    let team: Vec<String> = (0..team_n).map(|_| entry(team_crowns)).collect();
    let opp: Vec<String> = (0..opp_n).map(|_| entry(opp_crowns)).collect();
    format!(
        "{{\"type\":\"PvP\",\"battleTime\":\"{}\",\"isLadderTournament\":false,\"arena\":{{\"id\":54000010,\"name\":\"Arena 9\"}},\"gameMode\":{{\"id\":72000006,\"name\":\"Ladder\"}},\"team\":[{}],\"opponent\":[{}],\"deckSelection\":\"collection\"}}",
        time,
        team.join(","),
        opp.join(",")
    )
}

#[test]
fn parse_row_count_matches_array_length() {
    let text = b("[{\"a\":1},{\"a\":2},{\"a\":3}]");
    let t = parse_records(&text).unwrap();
    assert_eq!(t.rows.len(), 3);
    assert_eq!(t.cols, vec![b("a")]);
    assert!(matches!(t.rows[1][0], JsonValue::Int(2)));
}

#[test]
fn parse_unions_keys_and_fills_nulls() {
    let text = b("[{\"a\":1,\"b\":\"x\"},{\"b\":\"y\",\"c\":true}]");
    let t = parse_records(&text).unwrap();
    assert_eq!(t.cols, vec![b("a"), b("b"), b("c")]);
    assert!(matches!(t.rows[1][0], JsonValue::Null));
    assert!(matches!(t.rows[0][2], JsonValue::Null));
    assert!(matches!(&t.rows[1][1], JsonValue::Str(v) if v.as_slice() == b"y"));
}

#[test]
fn parse_object_payload_uses_first_array_field() {
    let text = b("{\"reason\":\"ok\",\"items\":[{\"a\":1}]}");
    let t = parse_records(&text).unwrap();
    assert_eq!(t.rows.len(), 1);
    assert_eq!(t.cols, vec![b("a")]);
}

#[test]
fn parse_malformed_json_fails() {
    let text = b("[{\"a\":1},");
    match parse_records(&text) {
        Err(PipelineError::Parse { .. }) => {}
        other => panic!("expected a parse failure, got {:?}", other.is_ok()),
    }
}

#[test]
fn parse_non_array_payload_fails() {
    let text = b("42");
    assert!(matches!(
        parse_records(&text),
        Err(PipelineError::Parse { .. })
    ));
}

#[test]
fn parse_inconsistent_column_type_fails() {
    let text = b("[{\"a\":1},{\"a\":\"one\"}]");
    match parse_records(&text) {
        Err(PipelineError::SchemaInference { column }) => assert_eq!(column, b("a")),
        _ => panic!("expected a schema inference failure"),
    }
}

#[test]
fn parse_json_values() {
    let text = b(" { \"k\": [true, null, -12, \"h\\n\\u00e9\"] } ");
    let v = parse_json(&text).unwrap();
    match v {
        JsonValue::Obj(fields) => {
            assert_eq!(fields.len(), 1);
            assert_eq!(fields[0].0, b("k"));
            match &fields[0].1 {
                JsonValue::Arr(items) => {
                    assert!(matches!(items[0], JsonValue::Bool(true)));
                    assert!(matches!(items[1], JsonValue::Null));
                    assert!(matches!(items[2], JsonValue::Int(-12)));
                    match &items[3] {
                        JsonValue::Str(txt) => assert_eq!(txt.as_slice(), "h\n\u{e9}".as_bytes()),
                        _ => panic!("expected text"),
                    }
                }
                _ => panic!("expected a list"),
            }
        }
        _ => panic!("expected an object"),
    }
}

#[test]
fn parse_rejects_fractions() {
    let text = b("[{\"a\":1.5}]");
    assert!(matches!(
        parse_records(&text),
        Err(PipelineError::Parse { .. })
    ));
}

#[test]
fn normalize_one_v_one_yields_one_row() {
    let text = b(format!("[{}]", record(1, 1, 3, 1, "20240101T100000.000Z")).as_str());
    let parsed = parse_records(&text).unwrap();
    let flat = normalize(&parsed).unwrap();
    assert_eq!(flat.rows.len(), 1);
    let wi = find(&flat.cols, b"winner");
    assert!(matches!(&flat.rows[0][wi], JsonValue::Str(v) if v.as_slice() == b"team"));
    let ai = find(&flat.cols, b"arenaId");
    assert!(matches!(flat.rows[0][ai], JsonValue::Int(54000010)));
    let an = find(&flat.cols, b"arenaName");
    assert!(matches!(&flat.rows[0][an], JsonValue::Str(v) if v.as_slice() == b"Arena 9"));
    let tt = find(&flat.cols, b"teamTag");
    assert!(matches!(&flat.rows[0][tt], JsonValue::Str(v) if v.as_slice() == b"#P1"));
    let ct = find(&flat.cols, b"teamClanTag");
    assert!(matches!(&flat.rows[0][ct], JsonValue::Str(v) if v.as_slice() == b"#C1"));
    let gm = find(&flat.cols, b"gamemodeName");
    assert!(matches!(&flat.rows[0][gm], JsonValue::Str(v) if v.as_slice() == b"Ladder"));
}

#[test]
fn normalize_two_v_two_yields_two_rows() {
    let text = b(format!("[{}]", record(2, 2, 1, 3, "20240101T100000.000Z")).as_str());
    let parsed = parse_records(&text).unwrap();
    let flat = normalize(&parsed).unwrap();
    assert_eq!(flat.rows.len(), 2);
    let wi = find(&flat.cols, b"winner");
    assert!(matches!(&flat.rows[0][wi], JsonValue::Str(v) if v.as_slice() == b"opponent"));
    assert!(matches!(&flat.rows[1][wi], JsonValue::Str(v) if v.as_slice() == b"opponent"));
}

#[test]
fn normalize_uneven_sides_pads_with_null() {
    let text = b(format!("[{}]", record(2, 1, 2, 0, "20240101T100000.000Z")).as_str());
    let parsed = parse_records(&text).unwrap();
    let flat = normalize(&parsed).unwrap();
    assert_eq!(flat.rows.len(), 2);
    let ot = find(&flat.cols, b"opponentTag");
    assert!(matches!(&flat.rows[0][ot], JsonValue::Str(v) if v.as_slice() == b"#P1"));
    assert!(matches!(flat.rows[1][ot], JsonValue::Null));
    let wi = find(&flat.cols, b"winner");
    assert!(matches!(&flat.rows[1][wi], JsonValue::Str(v) if v.as_slice() == b"opponent"));
}

#[test]
fn normalize_crown_tie_goes_to_opponent() {
    let text = b(format!("[{}]", record(1, 1, 3, 3, "20240101T100000.000Z")).as_str());
    let parsed = parse_records(&text).unwrap();
    let flat = normalize(&parsed).unwrap();
    assert_eq!(flat.rows.len(), 1);
    let wi = find(&flat.cols, b"winner");
    assert!(matches!(&flat.rows[0][wi], JsonValue::Str(v) if v.as_slice() == b"opponent"));
}

#[test]
fn normalize_row_count_sums_fanouts() {
    let text = b(format!(
        "[{},{}]",
        record(1, 1, 1, 0, "20240101T100000.000Z"),
        record(2, 2, 0, 1, "20240101T110000.000Z")
    )
    .as_str());
    let parsed = parse_records(&text).unwrap();
    let flat = normalize(&parsed).unwrap();
    assert_eq!(flat.rows.len(), 3);
}

#[test]
fn normalize_wrong_struct_arity_fails() {
    let text = b("[{\"arena\":{\"id\":1},\"gameMode\":{\"id\":1,\"name\":\"x\"},\"team\":[],\"opponent\":[]}]");
    let parsed = parse_records(&text).unwrap();
    match normalize(&parsed) {
        Err(PipelineError::SchemaMismatch { .. }) => {}
        _ => panic!("expected a schema mismatch"),
    }
}

#[test]
fn consolidate_no_snapshots_fails() {
    let tables: Vec<Table> = Vec::new();
    assert!(matches!(
        consolidate(&tables),
        Err(PipelineError::EmptyInput)
    ));
}

#[test]
fn consolidate_unions_schemas_and_merges_rows() {
    let snap1 = Table {
        cols: vec![b("battleTime"), b("teamCrowns"), b("opponentCrowns"), b("winner")],
        rows: vec![vec![n(100), n(3), n(1), s("team")]],
    };
    let snap2 = Table {
        cols: vec![
            b("battleTime"),
            b("teamCrowns"),
            b("opponentCrowns"),
            b("winner"),
            b("arenaName"),
        ],
        rows: vec![vec![n(100), n(3), n(1), s("team"), s("Arena 9")]],
    };
    let out = consolidate(&vec![snap1, snap2]).unwrap();
    assert_eq!(
        out.cols,
        vec![
            b("battleTime"),
            b("teamCrowns"),
            b("opponentCrowns"),
            b("winner"),
            b("arenaName")
        ]
    );
    assert_eq!(out.rows.len(), 1);
    assert!(matches!(&out.rows[0][4], JsonValue::Str(v) if v.as_slice() == b"Arena 9"));
    assert!(matches!(&out.rows[0][3], JsonValue::Str(v) if v.as_slice() == b"team"));
    assert!(matches!(out.rows[0][1], JsonValue::Int(3)));
}

#[test]
fn consolidate_same_snapshot_twice_is_idempotent() {
    let mk = || Table {
        cols: vec![b("battleTime"), b("teamCrowns")],
        rows: vec![
            vec![s("20240101T100000.000Z"), n(1)],
            vec![s("20240102T100000.000Z"), n(2)],
        ],
    };
    let once = consolidate(&vec![mk()]).unwrap();
    let twice = consolidate(&vec![mk(), mk()]).unwrap();
    assert_eq!(once.cols, twice.cols);
    assert_eq!(once.rows.len(), 2);
    assert_eq!(twice.rows.len(), 2);
    for (a, row) in once.rows.iter().zip(twice.rows.iter()) {
        for (x, y) in a.iter().zip(row.iter()) {
            match (x, y) {
                (JsonValue::Str(p), JsonValue::Str(q)) => assert_eq!(p, q),
                (JsonValue::Int(p), JsonValue::Int(q)) => assert_eq!(p, q),
                _ => panic!("unexpected cells"),
            }
        }
    }
}

#[test]
fn consolidate_sorts_by_time_descending() {
    let snap = Table {
        cols: vec![b("battleTime"), b("teamCrowns")],
        rows: vec![
            vec![s("20240101T100000.000Z"), n(1)],
            vec![s("20240103T100000.000Z"), n(3)],
            vec![s("20240102T100000.000Z"), n(2)],
        ],
    };
    let out = consolidate(&vec![snap]).unwrap();
    assert_eq!(out.rows.len(), 3);
    assert!(matches!(out.rows[0][1], JsonValue::Int(3)));
    assert!(matches!(out.rows[1][1], JsonValue::Int(2)));
    assert!(matches!(out.rows[2][1], JsonValue::Int(1)));
}

#[test]
fn consolidate_order_does_not_change_membership() {
    let mk1 = || Table {
        cols: vec![b("battleTime"), b("teamCrowns")],
        rows: vec![vec![s("20240101T100000.000Z"), n(1)]],
    };
    let mk2 = || Table {
        cols: vec![b("battleTime"), b("teamCrowns")],
        rows: vec![vec![s("20240102T100000.000Z"), n(2)]],
    };
    let ab = consolidate(&vec![mk1(), mk2()]).unwrap();
    let ba = consolidate(&vec![mk2(), mk1()]).unwrap();
    assert_eq!(ab.rows.len(), 2);
    assert_eq!(ba.rows.len(), 2);
    for i in 0..2 {
        for j in 0..2 {
            match (&ab.rows[i][j], &ba.rows[i][j]) {
                (JsonValue::Str(p), JsonValue::Str(q)) => assert_eq!(p, q),
                (JsonValue::Int(p), JsonValue::Int(q)) => assert_eq!(p, q),
                _ => panic!("unexpected cells"),
            }
        }
    }
}

#[test]
fn consolidate_conflicting_column_types_fail() {
    let snap1 = Table {
        cols: vec![b("battleTime"), b("teamCrowns")],
        rows: vec![vec![s("20240101T100000.000Z"), n(1)]],
    };
    let snap2 = Table {
        cols: vec![b("battleTime"), b("teamCrowns")],
        rows: vec![vec![s("20240102T100000.000Z"), s("two")]],
    };
    match consolidate(&vec![snap1, snap2]) {
        Err(PipelineError::SchemaUnion { column }) => assert_eq!(column, b("teamCrowns")),
        _ => panic!("expected a schema union failure"),
    }
}

#[test]
fn schema_audit_reports_drift() {
    let snap1 = Table {
        cols: vec![b("battleTime"), b("teamCrowns")],
        rows: vec![vec![n(1), n(2)]],
    };
    let snap2 = Table {
        cols: vec![b("teamCrowns"), b("arenaName")],
        rows: vec![vec![n(2), s("Arena 9")]],
    };
    let audit = battlelog::consolidate::schema_audit(&vec![snap1, snap2]);
    assert_eq!(audit.len(), 3);
    assert_eq!(audit[0].0, b("battleTime"));
    assert_eq!(audit[0].1, vec![true, false]);
    assert_eq!(audit[1].0, b("teamCrowns"));
    assert_eq!(audit[1].1, vec![true, true]);
    assert_eq!(audit[2].0, b("arenaName"));
    assert_eq!(audit[2].1, vec![false, true]);
}
