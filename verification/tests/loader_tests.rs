use food_ingest::food::{Amount, Food, FoodCode, Quantity, Unit};
use food_ingest::loader::{chunk_records, plan_load, split_chunk};
use food_ingest::sources::bam::{Bam, RowError};

fn gram(mantissa: u64, scale: usize) -> Quantity {
    Quantity(Amount { mantissa, scale }, Unit::Gram)
}

fn food(code: &str) -> Food {
    Food {
        code: FoodCode(code.to_string()),
        name: format!("food {code}"),
        energy: Quantity(Amount { mantissa: 100, scale: 0 }, Unit::Kcal),
        fiber: Quantity(Amount { mantissa: 5, scale: 1 }, Unit::Milligram),
        carbohydrates: gram(10, 0),
        lipids: gram(2, 0),
        protein: gram(3, 0),
    }
}

fn bad(column: &str) -> RowError {
    RowError::BadNumber { column: column.to_string(), value: "x".to_string() }
}

#[test]
fn chunk_count_is_ceiling_and_order_is_kept() {
    let rows: Vec<Result<Food, RowError>> =
        vec![Ok(food("a")), Ok(food("b")), Ok(food("c")), Ok(food("d")), Ok(food("e"))];
    let chunks = chunk_records(rows, 2);
    assert_eq!(chunks.len(), 3);
    assert_eq!(chunks[0].len(), 2);
    assert_eq!(chunks[1].len(), 2);
    assert_eq!(chunks[2].len(), 1);
    let flat: Vec<&Result<Food, RowError>> = chunks.iter().flatten().collect();
    let codes: Vec<&str> = flat
        .iter()
        .map(|r| r.as_ref().unwrap().code.0.as_str())
        .collect();
    assert_eq!(codes, vec!["a", "b", "c", "d", "e"]);
}

#[test]
fn exact_multiple_has_no_short_chunk() {
    let rows: Vec<Result<Food, RowError>> = vec![Ok(food("a")), Ok(food("b")), Ok(food("c"))];
    let chunks = chunk_records(rows, 3);
    assert_eq!(chunks.len(), 1);
    assert_eq!(chunks[0].len(), 3);
}

#[test]
fn empty_stream_has_no_chunks() {
    let chunks = chunk_records(Vec::new(), 4);
    assert_eq!(chunks.len(), 0);
}

#[test]
fn split_chunk_keeps_both_sides_in_order() {
    let chunk: Vec<Result<Food, RowError>> =
        vec![Ok(food("a")), Err(bad("energy_kcal")), Ok(food("b"))];
    let (oks, errs) = split_chunk(chunk);
    assert_eq!(oks.len(), 2);
    assert_eq!(oks[0].code.0, "a");
    assert_eq!(oks[1].code.0, "b");
    assert_eq!(errs, vec![bad("energy_kcal")]);
}

#[test]
fn four_rows_chunk_two_make_two_full_insert_units() {
    let rows: Vec<Result<Food, RowError>> =
        vec![Ok(food("a")), Ok(food("b")), Ok(food("c")), Ok(food("d"))];
    let plan = plan_load(rows, 2);
    assert_eq!(plan.inserts.len(), 2);
    assert_eq!(plan.inserts[0].len(), 2);
    assert_eq!(plan.inserts[1].len(), 2);
    assert_eq!(plan.inserts[0][0].code.0, "a");
    assert_eq!(plan.inserts[0][1].code.0, "b");
    assert_eq!(plan.inserts[1][0].code.0, "c");
    assert_eq!(plan.inserts[1][1].code.0, "d");
    assert!(plan.failures.is_empty());
    assert!(plan.run_succeeded());
}

#[test]
fn all_failed_chunks_are_skipped() {
    let rows: Vec<Result<Food, RowError>> =
        vec![Err(bad("energy_kcal")), Err(bad("protein_in_grams")), Ok(food("a"))];
    let plan = plan_load(rows, 2);
    assert_eq!(plan.inserts.len(), 1);
    assert_eq!(plan.inserts[0].len(), 1);
    assert_eq!(plan.inserts[0][0].code.0, "a");
    assert_eq!(plan.failures, vec![bad("energy_kcal"), bad("protein_in_grams")]);
    assert!(!plan.run_succeeded());
}

#[test]
fn end_to_end_best_effort_keeps_good_rows_and_reports_the_bad_one() {
    let text = "code,name,energ_kcal,fiber_td,carbohydrt,lipid_tot,protein\n\
                A1,Rice,360,1.2,79,0.5,6.6\n\
                B2,Beans,120,,21,1.0,8\n\
                C3,Corn,abc,2,19,1.5,3\n";
    let rows = Bam::new(text).load_foods().unwrap();
    assert_eq!(rows.len(), 3);
    let plan = plan_load(rows, 2);
    assert_eq!(plan.inserts.len(), 1);
    assert_eq!(plan.inserts[0].len(), 2);
    assert_eq!(plan.inserts[0][0].code.0, "A1");
    assert_eq!(plan.inserts[0][1].code.0, "B2");
    assert_eq!(
        plan.inserts[0][1].fiber,
        Quantity(Amount { mantissa: 0, scale: 0 }, Unit::Milligram)
    );
    assert_eq!(
        plan.failures,
        vec![RowError::BadNumber { column: "energy_kcal".to_string(), value: "abc".to_string() }]
    );
    assert!(!plan.run_succeeded());
}
