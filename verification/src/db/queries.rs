use vstd::prelude::*;

use crate::food::{spec_render_amount, Food, Quantity};
use crate::text::push_char;

verus! {

/// Standard SQL string-literal escaping: every single quote is doubled,
/// every other character stands unchanged.
pub open spec fn escape_sql(s: Seq<char>) -> Seq<char>
    decreases s.len(),
{
    if s.len() == 0 {
        Seq::empty()
    } else {
        escape_sql(s.drop_last()) + (if s.last() == '\'' {
            seq!['\'', '\'']
        } else {
            seq![s.last()]
        })
    }
}

/// Escapes a value for use inside a quoted SQL string literal.
pub fn sql_escaped(s: &str) -> (r: String)
    ensures
        r@ == escape_sql(s@),
{
    let n = s.unicode_len();
    let mut r = String::new();
    let mut i: usize = 0;
    while i < n
        invariant
            n == s@.len(),
            i <= n,
            r@ == escape_sql(s@.take(i as int)),
        decreases n - i,
    {
        let c = s.get_char(i);
        proof {
            assert(s@.take(i + 1).drop_last() =~= s@.take(i as int));
            assert(s@.take(i + 1).last() == s@[i as int]);
        }
        if c == '\'' {
            push_char(&mut r, '\'');
            push_char(&mut r, '\'');
            proof {
                assert(escape_sql(s@.take(i as int)).push('\'').push('\'') =~= escape_sql(
                    s@.take(i + 1),
                ));
            }
        } else {
            push_char(&mut r, c);
            proof {
                assert(escape_sql(s@.take(i as int)).push(c) =~= escape_sql(s@.take(i + 1)));
            }
        }
        i = i + 1;
    }
    proof {
        assert(s@.take(n as int) =~= s@);
    }
    r
}

/// The SQL literal of one quantity value of the composite `quantity` type.
pub open spec fn quantity_sql(q: Quantity) -> Seq<char> {
    "ROW("@ + spec_render_amount(q.0) + ", '"@ + q.1.spec_suffix() + "')::quantity"@
}

fn quantity_literal(q: &Quantity) -> (r: String)
    ensures
        r@ == quantity_sql(*q),
{
    let mut s = String::from_str("ROW(");
    let mag = q.0.render();
    s.append(mag.as_str());
    s.append(", '");
    s.append(q.1.suffix());
    s.append("')::quantity");
    s
}

/// The SQL values tuple of one record, in the column order of the `foods`
/// table; the identifier column is left to the store's own sequence.
pub open spec fn food_sql(f: Food) -> Seq<char> {
    "('"@ + escape_sql(f.name@) + "', "@ + spec_render_amount(f.energy.0) + ", "@ + quantity_sql(
        f.fiber,
    ) + ", "@ + quantity_sql(f.carbohydrates) + ", "@ + quantity_sql(f.lipids) + ", "@
        + quantity_sql(f.protein) + ")"@
}

/// Serializes one record as a SQL values tuple.
pub fn format_food(f: &Food) -> (r: String)
    ensures
        r@ == food_sql(*f),
{
    let mut s = String::from_str("('");
    let name = sql_escaped(f.name.as_str());
    s.append(name.as_str());
    s.append("', ");
    let energy = f.energy.0.render();
    s.append(energy.as_str());
    s.append(", ");
    let fiber = quantity_literal(&f.fiber);
    s.append(fiber.as_str());
    s.append(", ");
    let carbohydrates = quantity_literal(&f.carbohydrates);
    s.append(carbohydrates.as_str());
    s.append(", ");
    let lipids = quantity_literal(&f.lipids);
    s.append(lipids.as_str());
    s.append(", ");
    let protein = quantity_literal(&f.protein);
    s.append(protein.as_str());
    s.append(")");
    s
}

/// The records' values tuples joined with commas, in order.
pub open spec fn foods_sql(s: Seq<Food>) -> Seq<char>
    decreases s.len(),
{
    if s.len() == 0 {
        Seq::empty()
    } else if s.len() == 1 {
        food_sql(s[0])
    } else {
        foods_sql(s.drop_last()) + ", "@ + food_sql(s.last())
    }
}

/// The one bulk-insert statement of a non-empty chunk: all of the chunk's
/// records go in as one statement, so the store takes the whole chunk or
/// none of it.
pub open spec fn insert_sql(s: Seq<Food>) -> Seq<char> {
    "INSERT INTO foods (name, energy, fiber, carbohydrates, lipids, protein) VALUES "@ + foods_sql(
        s,
    )
}

/// Builds the bulk-insert statement of one chunk; executing it is its
/// caller's concern, and the text itself carries the serialized row values
/// a failure report needs.
pub fn insert_foods(foods: &Vec<Food>) -> (r: String)
    requires
        foods@.len() >= 1,
    ensures
        r@ == insert_sql(foods@),
{
    let mut s = String::from_str(
        "INSERT INTO foods (name, energy, fiber, carbohydrates, lipids, protein) VALUES ",
    );
    let mut i: usize = 0;
    let ghost prefix = s@;
    while i < foods.len()
        invariant
            foods@.len() >= 1,
            i <= foods@.len(),
            prefix == "INSERT INTO foods (name, energy, fiber, carbohydrates, lipids, protein) VALUES "@,
            s@ == prefix + foods_sql(foods@.take(i as int)),
        decreases foods@.len() - i,
    {
        proof {
            assert(foods@.take(i + 1).drop_last() =~= foods@.take(i as int));
            assert(foods@.take(i + 1).last() == foods@[i as int]);
        }
        if i > 0 {
            s.append(", ");
        }
        let one = format_food(&foods[i]);
        s.append(one.as_str());
        proof {
            if i == 0 {
                assert(foods_sql(foods@.take(0)) =~= Seq::<char>::empty());
                assert(prefix + Seq::<char>::empty() =~= prefix);
                assert(foods_sql(foods@.take(1)) == food_sql(foods@[0]));
            }
        }
        i = i + 1;
    }
    proof {
        assert(foods@.take(foods@.len() as int) =~= foods@);
    }
    s
}

/// The guarded creation of the unit enumeration type: re-running against a
/// provisioned store is a no-op instead of a duplicate-object error.
pub fn create_unit_type() -> (r: String)
    ensures
        r@ == (
        "DO $$ BEGIN CREATE TYPE food_unit AS ENUM ('g', 'mg', 'kcal'); EXCEPTION WHEN duplicate_object THEN NULL; END $$"
        )@,
{
    String::from_str(
        "DO $$ BEGIN CREATE TYPE food_unit AS ENUM ('g', 'mg', 'kcal'); EXCEPTION WHEN duplicate_object THEN NULL; END $$",
    )
}

/// The guarded creation of the composite `quantity` type.
pub fn create_quantity_type() -> (r: String)
    ensures
        r@ == (
        "DO $$ BEGIN CREATE TYPE quantity AS (value DOUBLE PRECISION, unit_of_measure food_unit); EXCEPTION WHEN duplicate_object THEN NULL; END $$"
        )@,
{
    String::from_str(
        "DO $$ BEGIN CREATE TYPE quantity AS (value DOUBLE PRECISION, unit_of_measure food_unit); EXCEPTION WHEN duplicate_object THEN NULL; END $$",
    )
}

/// The guarded creation of the `foods` table.
pub fn create_foods_table() -> (r: String)
    ensures
        r@ == (
        "CREATE TABLE IF NOT EXISTS foods (id SERIAL PRIMARY KEY, name VARCHAR(255) NOT NULL, energy DOUBLE PRECISION NOT NULL, fiber quantity NOT NULL, carbohydrates quantity NOT NULL, lipids quantity NOT NULL, protein quantity NOT NULL)"
        )@,
{
    String::from_str(
        "CREATE TABLE IF NOT EXISTS foods (id SERIAL PRIMARY KEY, name VARCHAR(255) NOT NULL, energy DOUBLE PRECISION NOT NULL, fiber quantity NOT NULL, carbohydrates quantity NOT NULL, lipids quantity NOT NULL, protein quantity NOT NULL)"
    )
}

/// The statements of one schema bootstrap, in execution order. The
/// destructive variant first drops the types (and, through them, the table)
/// and is an explicit opt-in, never the default: it destroys existing data.
pub open spec fn bootstrap_sql(destructive: bool) -> Seq<Seq<char>> {
    let create = seq![
        (
        "DO $$ BEGIN CREATE TYPE food_unit AS ENUM ('g', 'mg', 'kcal'); EXCEPTION WHEN duplicate_object THEN NULL; END $$"
        )@,
        (
        "DO $$ BEGIN CREATE TYPE quantity AS (value DOUBLE PRECISION, unit_of_measure food_unit); EXCEPTION WHEN duplicate_object THEN NULL; END $$"
        )@,
        (
        "CREATE TABLE IF NOT EXISTS foods (id SERIAL PRIMARY KEY, name VARCHAR(255) NOT NULL, energy DOUBLE PRECISION NOT NULL, fiber quantity NOT NULL, carbohydrates quantity NOT NULL, lipids quantity NOT NULL, protein quantity NOT NULL)"
        )@,
    ];
    if destructive {
        seq![
            "DROP TYPE IF EXISTS food_unit CASCADE"@,
            "DROP TYPE IF EXISTS quantity CASCADE"@,
        ] + create
    } else {
        create
    }
}

/// The schema bootstrap of one run, idempotent unless destruction is asked
/// for explicitly.
pub fn bootstrap_statements(destructive: bool) -> (r: Vec<String>)
    ensures
        r.deep_view() == bootstrap_sql(destructive),
{
    let mut r: Vec<String> = Vec::new();
    if destructive {
        r.push(String::from_str("DROP TYPE IF EXISTS food_unit CASCADE"));
        r.push(String::from_str("DROP TYPE IF EXISTS quantity CASCADE"));
    }
    r.push(create_unit_type());
    r.push(create_quantity_type());
    r.push(create_foods_table());
    proof {
        assert(r.deep_view() =~~= bootstrap_sql(destructive));
    }
    r
}

} // verus!
