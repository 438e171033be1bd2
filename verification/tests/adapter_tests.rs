use food_ingest::food::{Amount, Quantity, Unit};
use food_ingest::sources::bam::{parse_row, Bam, RowError};

fn strings(cells: &[&str]) -> Vec<String> {
    cells.iter().map(|c| c.to_string()).collect()
}

fn header() -> Vec<String> {
    strings(&[
        "code",
        "name",
        "energ_kcal",
        "fiber_td",
        "carbohydrt",
        "lipid_tot",
        "protein",
    ])
}

#[test]
fn well_formed_row_maps_every_field() {
    let row = strings(&["A1", "Rice", "360", "1.2", "79", "0.5", "6.6"]);
    let food = parse_row(&header(), &row).unwrap();
    assert_eq!(food.code.0, "A1");
    assert_eq!(food.name, "Rice");
    assert_eq!(food.energy, Quantity(Amount { mantissa: 360, scale: 0 }, Unit::Kcal));
    assert_eq!(food.fiber, Quantity(Amount { mantissa: 12, scale: 1 }, Unit::Milligram));
    assert_eq!(food.carbohydrates, Quantity(Amount { mantissa: 79, scale: 0 }, Unit::Gram));
    assert_eq!(food.lipids, Quantity(Amount { mantissa: 5, scale: 1 }, Unit::Gram));
    assert_eq!(food.protein, Quantity(Amount { mantissa: 66, scale: 1 }, Unit::Gram));
}

#[test]
fn canonical_field_names_work_as_aliases() {
    let h = strings(&[
        "codigomex2",
        "nombre_del_alimento",
        "energy_kcal",
        "fiber_in_milligrams",
        "carbohydrates_in_grams",
        "lipids_in_grams",
        "protein_in_grams",
    ]);
    let row = strings(&["B2", "Beans", "120", "", ".", "1.0", "8"]);
    let food = parse_row(&h, &row).unwrap();
    assert_eq!(food.code.0, "B2");
    assert_eq!(food.fiber, Quantity(Amount { mantissa: 0, scale: 0 }, Unit::Milligram));
    assert_eq!(food.carbohydrates, Quantity(Amount { mantissa: 0, scale: 0 }, Unit::Gram));
}

#[test]
fn column_order_does_not_matter() {
    let h = strings(&[
        "protein",
        "lipid_tot",
        "carbohydrt",
        "fiber_td",
        "energ_kcal",
        "name",
        "code",
    ]);
    let row = strings(&["6.6", "0.5", "79", "1.2", "360", "Rice", "A1"]);
    let food = parse_row(&h, &row).unwrap();
    assert_eq!(food.code.0, "A1");
    assert_eq!(food.energy, Quantity(Amount { mantissa: 360, scale: 0 }, Unit::Kcal));
}

#[test]
fn missing_column_names_the_first_missing_field() {
    let h = strings(&["code", "energ_kcal", "fiber_td", "carbohydrt", "lipid_tot", "protein"]);
    let row = strings(&["A1", "360", "1.2", "79", "0.5", "6.6"]);
    let err = parse_row(&h, &row).unwrap_err();
    assert_eq!(err, RowError::MissingColumn { column: "name".to_string() });
}

#[test]
fn short_row_misses_its_column() {
    let row = strings(&["A1", "Rice", "360", "1.2"]);
    let err = parse_row(&header(), &row).unwrap_err();
    assert_eq!(err, RowError::MissingColumn { column: "carbohydrates_in_grams".to_string() });
}

#[test]
fn exponent_cells_parse_in_rows() {
    let row = strings(&["A1", "Rice", "3.6e2", "1.2e0", "7.9e1", "5e-1", "6.6"]);
    let food = parse_row(&header(), &row).unwrap();
    assert_eq!(food.energy, Quantity(Amount { mantissa: 360, scale: 0 }, Unit::Kcal));
    assert_eq!(food.fiber, Quantity(Amount { mantissa: 12, scale: 1 }, Unit::Milligram));
    assert_eq!(food.carbohydrates, Quantity(Amount { mantissa: 79, scale: 0 }, Unit::Gram));
    assert_eq!(food.lipids, Quantity(Amount { mantissa: 5, scale: 1 }, Unit::Gram));
}

#[test]
fn bad_number_names_column_and_value() {
    let row = strings(&["A1", "Rice", "abc", "1.2", "79", "0.5", "6.6"]);
    let err = parse_row(&header(), &row).unwrap_err();
    assert_eq!(
        err,
        RowError::BadNumber { column: "energy_kcal".to_string(), value: "abc".to_string() }
    );
}

#[test]
fn first_bad_number_wins() {
    let row = strings(&["A1", "Rice", "360", "x", "y", "0.5", "6.6"]);
    let err = parse_row(&header(), &row).unwrap_err();
    assert_eq!(
        err,
        RowError::BadNumber {
            column: "fiber_in_milligrams".to_string(),
            value: "x".to_string()
        }
    );
}

#[test]
fn load_foods_parses_a_whole_text() {
    let text = "code,name,energ_kcal,fiber_td,carbohydrt,lipid_tot,protein\n\
                A1,Rice,360,1.2,79,0.5,6.6\n\
                B2,Beans,120,,21,1.0,8\n";
    let bam = Bam::new(text);
    let rows = bam.load_foods().unwrap();
    assert_eq!(rows.len(), 2);
    let first = rows[0].as_ref().unwrap();
    assert_eq!(first.code.0, "A1");
    assert_eq!(first.energy, Quantity(Amount { mantissa: 360, scale: 0 }, Unit::Kcal));
    let second = rows[1].as_ref().unwrap();
    assert_eq!(second.name, "Beans");
    assert_eq!(second.fiber, Quantity(Amount { mantissa: 0, scale: 0 }, Unit::Milligram));
}

#[test]
fn quoted_fields_are_split_by_the_reader() {
    let text = "code,name,energ_kcal,fiber_td,carbohydrt,lipid_tot,protein\n\
                A2,\"Rice, brown\",354,3.5,76,2.8,7.5\n";
    let rows = Bam::new(text).load_foods().unwrap();
    assert_eq!(rows.len(), 1);
    let food = rows[0].as_ref().unwrap();
    assert_eq!(food.name, "Rice, brown");
}

#[test]
fn wrong_field_count_is_unreadable() {
    let text = "code,name,energ_kcal,fiber_td,carbohydrt,lipid_tot,protein\n\
                A1,Rice,360\n\
                B2,Beans,120,,21,1.0,8\n";
    let rows = Bam::new(text).load_foods().unwrap();
    assert_eq!(rows.len(), 2);
    assert_eq!(rows[0], Err(RowError::Unreadable));
    assert!(rows[1].is_ok());
}

#[test]
fn empty_text_yields_no_rows() {
    let rows = Bam::new("").load_foods().unwrap();
    assert_eq!(rows.len(), 0);
}

#[test]
fn header_only_yields_no_rows() {
    let text = "code,name,energ_kcal,fiber_td,carbohydrt,lipid_tot,protein\n";
    let rows = Bam::new(text).load_foods().unwrap();
    assert_eq!(rows.len(), 0);
}
