use food_ingest::db::queries::{
    bootstrap_statements, create_foods_table, create_quantity_type, create_unit_type,
    format_food, insert_foods, sql_escaped,
};
use food_ingest::food::{Amount, Food, FoodCode, Quantity, Unit};

fn rice() -> Food {
    Food {
        code: FoodCode("A1".to_string()),
        name: "Rice".to_string(),
        energy: Quantity(Amount { mantissa: 360, scale: 0 }, Unit::Kcal),
        fiber: Quantity(Amount { mantissa: 12, scale: 1 }, Unit::Milligram),
        carbohydrates: Quantity(Amount { mantissa: 79, scale: 0 }, Unit::Gram),
        lipids: Quantity(Amount { mantissa: 5, scale: 1 }, Unit::Gram),
        protein: Quantity(Amount { mantissa: 66, scale: 1 }, Unit::Gram),
    }
}

#[test]
fn escaping_doubles_single_quotes() {
    assert_eq!(sql_escaped("O'Brien's"), "O''Brien''s");
    assert_eq!(sql_escaped("plain"), "plain");
    assert_eq!(sql_escaped(""), "");
}

#[test]
fn one_food_serializes_to_its_values_tuple() {
    assert_eq!(
        format_food(&rice()),
        "('Rice', 360, ROW(1.2, 'mg')::quantity, ROW(79, 'g')::quantity, \
         ROW(0.5, 'g')::quantity, ROW(6.6, 'g')::quantity)"
    );
}

#[test]
fn quoted_name_is_escaped_in_the_tuple() {
    let mut f = rice();
    f.name = "O'Brien".to_string();
    let tuple = format_food(&f);
    assert!(tuple.starts_with("('O''Brien', "));
}

#[test]
fn insert_statement_carries_every_row_in_order() {
    let mut second = rice();
    second.code = FoodCode("B2".to_string());
    second.name = "Beans".to_string();
    let statement = insert_foods(&vec![rice(), second]);
    assert_eq!(
        statement,
        "INSERT INTO foods (name, energy, fiber, carbohydrates, lipids, protein) VALUES \
         ('Rice', 360, ROW(1.2, 'mg')::quantity, ROW(79, 'g')::quantity, \
         ROW(0.5, 'g')::quantity, ROW(6.6, 'g')::quantity), \
         ('Beans', 360, ROW(1.2, 'mg')::quantity, ROW(79, 'g')::quantity, \
         ROW(0.5, 'g')::quantity, ROW(6.6, 'g')::quantity)"
    );
}

#[test]
fn bootstrap_is_guarded_and_ordered() {
    let statements = bootstrap_statements(false);
    assert_eq!(statements.len(), 3);
    assert_eq!(statements[0], create_unit_type());
    assert_eq!(statements[1], create_quantity_type());
    assert_eq!(statements[2], create_foods_table());
    assert!(statements[0].contains("EXCEPTION WHEN duplicate_object THEN NULL"));
    assert!(statements[1].contains("EXCEPTION WHEN duplicate_object THEN NULL"));
    assert!(statements[2].starts_with("CREATE TABLE IF NOT EXISTS foods"));
}

#[test]
fn bootstrap_twice_emits_the_same_guarded_statements() {
    assert_eq!(bootstrap_statements(false), bootstrap_statements(false));
}

#[test]
fn destructive_bootstrap_drops_first_and_only_when_asked() {
    let statements = bootstrap_statements(true);
    assert_eq!(statements.len(), 5);
    assert_eq!(statements[0], "DROP TYPE IF EXISTS food_unit CASCADE");
    assert_eq!(statements[1], "DROP TYPE IF EXISTS quantity CASCADE");
    assert_eq!(statements[2], create_unit_type());
    assert!(!bootstrap_statements(false).iter().any(|s| s.contains("DROP")));
}

#[test]
fn unit_type_lists_the_three_labels() {
    let ddl = create_unit_type();
    assert!(ddl.contains("CREATE TYPE food_unit AS ENUM ('g', 'mg', 'kcal')"));
}

#[test]
fn quantity_type_pairs_value_and_unit() {
    let ddl = create_quantity_type();
    assert!(ddl.contains("CREATE TYPE quantity AS (value DOUBLE PRECISION, unit_of_measure food_unit)"));
}
