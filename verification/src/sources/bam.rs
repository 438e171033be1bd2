use vstd::prelude::*;

use crate::food::{spec_parse_amount, Amount, Food as CanonicalFood, FoodCode, Quantity, Unit};
use crate::sources::source::{Source, SourceError};
use crate::text::matches_alias;

verus! {

/// Why one row of a dataset yielded no record.
#[derive(Debug, PartialEq, Eq)]
pub enum RowError {
    /// The reader could not split the row into fields (wrong field count,
    /// broken quoting), or there was no readable header to map it with.
    Unreadable,
    /// No header column matches any alias of the named logical field, or the
    /// row is too short to reach that column.
    MissingColumn { column: String },
    /// The named column's text survives neither lenient coercion nor the
    /// numeric grammar.
    BadNumber { column: String, value: String },
}

/// What the delimited-text reader makes of raw text: one entry per row, each
/// either its fields or nothing where the reader refuses the row.
pub uninterp spec fn rows_of(s: Seq<char>) -> Seq<Option<Seq<Seq<char>>>>;

/// Relies on csv's `Reader` over in-memory bytes: it splits comma-delimited
/// text into rows of fields, a pure function of the text; a row it refuses
/// (wrong field count, broken quoting) comes out as `None`.
#[verifier::external_body]
fn split_rows(data: &str) -> (r: Vec<Option<Vec<String>>>)
    ensures
        r.deep_view() == rows_of(data@),
{
    csv::ReaderBuilder::new()
        .has_headers(false)
        .from_reader(data.as_bytes())
        .into_records()
        .map(|res| res.ok().map(|rec| rec.iter().map(|f| f.to_string()).collect()))
        .collect()
}

/// A header name claims a logical field when it equals either alias.
pub open spec fn is_alias(x: Seq<char>, p: Seq<char>, q: Seq<char>) -> bool {
    x == p || x == q
}

/// `i` is the column of the field with aliases `p`, `q`: the first header
/// entry that matches either.
pub open spec fn col_is(h: Seq<Seq<char>>, p: Seq<char>, q: Seq<char>, i: int) -> bool {
    &&& 0 <= i < h.len()
    &&& is_alias(h[i], p, q)
    &&& forall|j: int| 0 <= j < i ==> !is_alias(#[trigger] h[j], p, q)
}

pub open spec fn no_col(h: Seq<Seq<char>>, p: Seq<char>, q: Seq<char>) -> bool {
    forall|j: int| 0 <= j < h.len() ==> !is_alias(#[trigger] h[j], p, q)
}

/// `x` is the row's cell under the field's column.
pub open spec fn cell_is(
    h: Seq<Seq<char>>,
    r: Seq<Seq<char>>,
    p: Seq<char>,
    q: Seq<char>,
    x: Seq<char>,
) -> bool {
    exists|i: int| #[trigger] col_is(h, p, q, i) && i < r.len() && r[i] == x
}

/// The field has no cell in this row: no header column claims it, or the row
/// stops short of its column.
pub open spec fn col_missing(
    h: Seq<Seq<char>>,
    r: Seq<Seq<char>>,
    p: Seq<char>,
    q: Seq<char>,
) -> bool {
    no_col(h, p, q) || exists|i: int| #[trigger] col_is(h, p, q, i) && i >= r.len()
}

/// The field's cell exists but is not a number under lenient coercion.
pub open spec fn bad_cell(
    h: Seq<Seq<char>>,
    r: Seq<Seq<char>>,
    p: Seq<char>,
    q: Seq<char>,
) -> bool {
    exists|x: Seq<char>| #[trigger] cell_is(h, r, p, q, x) && spec_parse_amount(x) is None
}

proof fn lemma_col_unique(h: Seq<Seq<char>>, p: Seq<char>, q: Seq<char>, i: int, i2: int)
    requires
        col_is(h, p, q, i),
        col_is(h, p, q, i2),
    ensures
        i == i2,
{
    if i < i2 {
        assert(!is_alias(h[i], p, q));
    } else if i2 < i {
        assert(!is_alias(h[i2], p, q));
    }
}

proof fn lemma_cell_unique(
    h: Seq<Seq<char>>,
    r: Seq<Seq<char>>,
    p: Seq<char>,
    q: Seq<char>,
    x: Seq<char>,
    x2: Seq<char>,
)
    requires
        cell_is(h, r, p, q, x),
        cell_is(h, r, p, q, x2),
    ensures
        x == x2,
{
    let i = choose|i: int| #[trigger] col_is(h, p, q, i) && i < r.len() && r[i] == x;
    let i2 = choose|i2: int| #[trigger] col_is(h, p, q, i2) && i2 < r.len() && r[i2] == x2;
    lemma_col_unique(h, p, q, i, i2);
}

proof fn lemma_col_present(h: Seq<Seq<char>>, r: Seq<Seq<char>>, p: Seq<char>, q: Seq<char>, i: int)
    requires
        col_is(h, p, q, i),
        i < r.len(),
    ensures
        !col_missing(h, r, p, q),
{
    assert(is_alias(h[i], p, q));
    if exists|i2: int| #[trigger] col_is(h, p, q, i2) && i2 >= r.len() {
        let i2 = choose|i2: int| #[trigger] col_is(h, p, q, i2) && i2 >= r.len();
        lemma_col_unique(h, p, q, i, i2);
    }
}

proof fn lemma_not_bad(h: Seq<Seq<char>>, r: Seq<Seq<char>>, p: Seq<char>, q: Seq<char>, t: Seq<char>)
    requires
        cell_is(h, r, p, q, t),
        spec_parse_amount(t) is Some,
    ensures
        !bad_cell(h, r, p, q),
{
    if bad_cell(h, r, p, q) {
        let x = choose|x: Seq<char>| #[trigger] cell_is(h, r, p, q, x) && spec_parse_amount(x) is None;
        lemma_cell_unique(h, r, p, q, x, t);
    }
}

/// The first header column claiming either alias, if any.
fn find_column(header: &Vec<String>, a0: &str, a1: &str) -> (r: Option<usize>)
    ensures
        r matches Some(i) ==> col_is(header.deep_view(), a0@, a1@, i as int),
        r is None ==> no_col(header.deep_view(), a0@, a1@),
{
    let mut i: usize = 0;
    while i < header.len()
        invariant
            i <= header.len(),
            forall|j: int| 0 <= j < i ==> !is_alias(#[trigger] header.deep_view()[j], a0@, a1@),
        decreases header.len() - i,
    {
        if matches_alias(&header[i], a0, a1) {
            return Some(i);
        }
        i = i + 1;
    }
    None
}

/// The row's cell under the field's column, if the header claims the field
/// and the row reaches it.
fn column_cell(header: &Vec<String>, row: &Vec<String>, a0: &str, a1: &str) -> (r: Option<String>)
    ensures
        r is Some <==> !col_missing(header.deep_view(), row.deep_view(), a0@, a1@),
        r matches Some(x) ==> cell_is(header.deep_view(), row.deep_view(), a0@, a1@, x@),
{
    let ghost h = header.deep_view();
    let ghost rv = row.deep_view();
    match find_column(header, a0, a1) {
        None => None,
        Some(i) => {
            if i < row.len() {
                let t = row[i].clone();
                proof {
                    assert(col_is(h, a0@, a1@, i as int) && (i as int) < rv.len() && rv[i as int]
                        == t@);
                    lemma_col_present(h, rv, a0@, a1@, i as int);
                }
                Some(t)
            } else {
                proof {
                    assert(col_is(h, a0@, a1@, i as int) && i as int >= rv.len());
                }
                None
            }
        },
    }
}

pub open spec fn code_cell(h: Seq<Seq<char>>, r: Seq<Seq<char>>, x: Seq<char>) -> bool {
    cell_is(h, r, "code"@, "codigomex2"@, x)
}

pub open spec fn code_missing(h: Seq<Seq<char>>, r: Seq<Seq<char>>) -> bool {
    col_missing(h, r, "code"@, "codigomex2"@)
}

pub open spec fn name_cell(h: Seq<Seq<char>>, r: Seq<Seq<char>>, x: Seq<char>) -> bool {
    cell_is(h, r, "name"@, "nombre_del_alimento"@, x)
}

pub open spec fn name_missing(h: Seq<Seq<char>>, r: Seq<Seq<char>>) -> bool {
    col_missing(h, r, "name"@, "nombre_del_alimento"@)
}

pub open spec fn energy_cell(h: Seq<Seq<char>>, r: Seq<Seq<char>>, x: Seq<char>) -> bool {
    cell_is(h, r, "energy_kcal"@, "energ_kcal"@, x)
}

pub open spec fn energy_missing(h: Seq<Seq<char>>, r: Seq<Seq<char>>) -> bool {
    col_missing(h, r, "energy_kcal"@, "energ_kcal"@)
}

pub open spec fn energy_bad(h: Seq<Seq<char>>, r: Seq<Seq<char>>) -> bool {
    bad_cell(h, r, "energy_kcal"@, "energ_kcal"@)
}

pub open spec fn fiber_cell(h: Seq<Seq<char>>, r: Seq<Seq<char>>, x: Seq<char>) -> bool {
    cell_is(h, r, "fiber_in_milligrams"@, "fiber_td"@, x)
}

pub open spec fn fiber_missing(h: Seq<Seq<char>>, r: Seq<Seq<char>>) -> bool {
    col_missing(h, r, "fiber_in_milligrams"@, "fiber_td"@)
}

pub open spec fn fiber_bad(h: Seq<Seq<char>>, r: Seq<Seq<char>>) -> bool {
    bad_cell(h, r, "fiber_in_milligrams"@, "fiber_td"@)
}

pub open spec fn carbohydrates_cell(h: Seq<Seq<char>>, r: Seq<Seq<char>>, x: Seq<char>) -> bool {
    cell_is(h, r, "carbohydrates_in_grams"@, "carbohydrt"@, x)
}

pub open spec fn carbohydrates_missing(h: Seq<Seq<char>>, r: Seq<Seq<char>>) -> bool {
    col_missing(h, r, "carbohydrates_in_grams"@, "carbohydrt"@)
}

pub open spec fn carbohydrates_bad(h: Seq<Seq<char>>, r: Seq<Seq<char>>) -> bool {
    bad_cell(h, r, "carbohydrates_in_grams"@, "carbohydrt"@)
}

pub open spec fn lipids_cell(h: Seq<Seq<char>>, r: Seq<Seq<char>>, x: Seq<char>) -> bool {
    cell_is(h, r, "lipids_in_grams"@, "lipid_tot"@, x)
}

pub open spec fn lipids_missing(h: Seq<Seq<char>>, r: Seq<Seq<char>>) -> bool {
    col_missing(h, r, "lipids_in_grams"@, "lipid_tot"@)
}

pub open spec fn lipids_bad(h: Seq<Seq<char>>, r: Seq<Seq<char>>) -> bool {
    bad_cell(h, r, "lipids_in_grams"@, "lipid_tot"@)
}

pub open spec fn protein_cell(h: Seq<Seq<char>>, r: Seq<Seq<char>>, x: Seq<char>) -> bool {
    cell_is(h, r, "protein_in_grams"@, "protein"@, x)
}

pub open spec fn protein_missing(h: Seq<Seq<char>>, r: Seq<Seq<char>>) -> bool {
    col_missing(h, r, "protein_in_grams"@, "protein"@)
}

pub open spec fn protein_bad(h: Seq<Seq<char>>, r: Seq<Seq<char>>) -> bool {
    bad_cell(h, r, "protein_in_grams"@, "protein"@)
}

pub open spec fn any_missing(h: Seq<Seq<char>>, r: Seq<Seq<char>>) -> bool {
    ||| code_missing(h, r)
    ||| name_missing(h, r)
    ||| energy_missing(h, r)
    ||| fiber_missing(h, r)
    ||| carbohydrates_missing(h, r)
    ||| lipids_missing(h, r)
    ||| protein_missing(h, r)
}

/// The canonical name of the first logical field the row has no cell for.
pub open spec fn missing_name(h: Seq<Seq<char>>, r: Seq<Seq<char>>) -> Seq<char> {
    if code_missing(h, r) {
        "code"@
    } else if name_missing(h, r) {
        "name"@
    } else if energy_missing(h, r) {
        "energy_kcal"@
    } else if fiber_missing(h, r) {
        "fiber_in_milligrams"@
    } else if carbohydrates_missing(h, r) {
        "carbohydrates_in_grams"@
    } else if lipids_missing(h, r) {
        "lipids_in_grams"@
    } else {
        "protein_in_grams"@
    }
}

/// Every field has its cell and every numeric cell coerces to a magnitude.
pub open spec fn row_parses(h: Seq<Seq<char>>, r: Seq<Seq<char>>) -> bool {
    &&& !any_missing(h, r)
    &&& !energy_bad(h, r)
    &&& !fiber_bad(h, r)
    &&& !carbohydrates_bad(h, r)
    &&& !lipids_bad(h, r)
    &&& !protein_bad(h, r)
}

/// The record's fields equal the row's cells under the documented alias
/// mapping, lenient coercion and unit assignment.
pub open spec fn food_matches(h: Seq<Seq<char>>, r: Seq<Seq<char>>, f: CanonicalFood) -> bool {
    &&& code_cell(h, r, f.code.0@)
    &&& name_cell(h, r, f.name@)
    &&& exists|x: Seq<char>| #[trigger] energy_cell(h, r, x) && spec_parse_amount(x) == Some(
        f.energy.0,
    )
    &&& f.energy.1 == Unit::Kcal
    &&& exists|x: Seq<char>| #[trigger] fiber_cell(h, r, x) && spec_parse_amount(x) == Some(
        f.fiber.0,
    )
    &&& f.fiber.1 == Unit::Milligram
    &&& exists|x: Seq<char>| #[trigger] carbohydrates_cell(h, r, x) && spec_parse_amount(x)
        == Some(f.carbohydrates.0)
    &&& f.carbohydrates.1 == Unit::Gram
    &&& exists|x: Seq<char>| #[trigger] lipids_cell(h, r, x) && spec_parse_amount(x) == Some(
        f.lipids.0,
    )
    &&& f.lipids.1 == Unit::Gram
    &&& exists|x: Seq<char>| #[trigger] protein_cell(h, r, x) && spec_parse_amount(x) == Some(
        f.protein.0,
    )
    &&& f.protein.1 == Unit::Gram
}

/// Which error a failed row carries: the first missing field in canonical
/// order, else the first uncoercible numeric cell in canonical order, with
/// the offending text.
pub open spec fn error_explains(h: Seq<Seq<char>>, r: Seq<Seq<char>>, e: RowError) -> bool {
    if any_missing(h, r) {
        e matches RowError::MissingColumn { column } && column@ == missing_name(h, r)
    } else if energy_bad(h, r) {
        e matches RowError::BadNumber { column, value } && column@ == "energy_kcal"@
            && energy_cell(h, r, value@) && spec_parse_amount(value@) is None
    } else if fiber_bad(h, r) {
        e matches RowError::BadNumber { column, value } && column@ == "fiber_in_milligrams"@
            && fiber_cell(h, r, value@) && spec_parse_amount(value@) is None
    } else if carbohydrates_bad(h, r) {
        e matches RowError::BadNumber { column, value } && column@ == "carbohydrates_in_grams"@
            && carbohydrates_cell(h, r, value@) && spec_parse_amount(value@) is None
    } else if lipids_bad(h, r) {
        e matches RowError::BadNumber { column, value } && column@ == "lipids_in_grams"@
            && lipids_cell(h, r, value@) && spec_parse_amount(value@) is None
    } else if protein_bad(h, r) {
        e matches RowError::BadNumber { column, value } && column@ == "protein_in_grams"@
            && protein_cell(h, r, value@) && spec_parse_amount(value@) is None
    } else {
        false
    }
}

/// Everything the mapping of one well-split row guarantees.
pub open spec fn parse_row_post(
    h: Seq<Seq<char>>,
    r: Seq<Seq<char>>,
    res: Result<CanonicalFood, RowError>,
) -> bool {
    &&& (res is Ok <==> row_parses(h, r))
    &&& (res matches Ok(f) ==> food_matches(h, r, f))
    &&& (res matches Err(e) ==> error_explains(h, r, e))
}

/// One raw row of the delimited dataset after alias mapping and lenient
/// numeric coercion, before units are assigned.
#[derive(Debug, PartialEq, Eq)]
pub struct Food {
    pub code: String,
    pub name: String,
    pub energy_kcal: Amount,
    pub fiber_in_milligrams: Amount,
    pub carbohydrates_in_grams: Amount,
    pub lipids_in_grams: Amount,
    pub protein_in_grams: Amount,
}

impl Food {
    /// Assigns each magnitude the unit its source column is measured in:
    /// energy in kilocalories, fiber in milligrams, the rest in grams.
    pub fn into_food(self) -> (f: CanonicalFood)
        ensures
            f.code.0 == self.code,
            f.name == self.name,
            f.energy == Quantity(self.energy_kcal, Unit::Kcal),
            f.fiber == Quantity(self.fiber_in_milligrams, Unit::Milligram),
            f.carbohydrates == Quantity(self.carbohydrates_in_grams, Unit::Gram),
            f.lipids == Quantity(self.lipids_in_grams, Unit::Gram),
            f.protein == Quantity(self.protein_in_grams, Unit::Gram),
    {
        CanonicalFood {
            code: FoodCode(self.code),
            name: self.name,
            energy: Quantity(self.energy_kcal, Unit::Kcal),
            fiber: Quantity(self.fiber_in_milligrams, Unit::Milligram),
            carbohydrates: Quantity(self.carbohydrates_in_grams, Unit::Gram),
            lipids: Quantity(self.lipids_in_grams, Unit::Gram),
            protein: Quantity(self.protein_in_grams, Unit::Gram),
        }
    }
}

/// Maps one well-split row to a record: alias mapping, lenient numeric
/// coercion, unit assignment, exactly as `parse_row_post` states.
pub fn parse_row(header: &Vec<String>, row: &Vec<String>) -> (r: Result<CanonicalFood, RowError>)
    ensures
        parse_row_post(header.deep_view(), row.deep_view(), r),
{
    let ghost h = header.deep_view();
    let ghost rv = row.deep_view();
    let code = match column_cell(header, row, "code", "codigomex2") {
        Some(x) => x,
        None => {
            return Err(RowError::MissingColumn { column: String::from_str("code") });
        },
    };
    let name = match column_cell(header, row, "name", "nombre_del_alimento") {
        Some(x) => x,
        None => {
            return Err(RowError::MissingColumn { column: String::from_str("name") });
        },
    };
    let energy_text = match column_cell(header, row, "energy_kcal", "energ_kcal") {
        Some(x) => x,
        None => {
            return Err(RowError::MissingColumn { column: String::from_str("energy_kcal") });
        },
    };
    let fiber_text = match column_cell(header, row, "fiber_in_milligrams", "fiber_td") {
        Some(x) => x,
        None => {
            return Err(
                RowError::MissingColumn { column: String::from_str("fiber_in_milligrams") },
            );
        },
    };
    let carbohydrates_text = match column_cell(header, row, "carbohydrates_in_grams", "carbohydrt") {
        Some(x) => x,
        None => {
            return Err(
                RowError::MissingColumn { column: String::from_str("carbohydrates_in_grams") },
            );
        },
    };
    let lipids_text = match column_cell(header, row, "lipids_in_grams", "lipid_tot") {
        Some(x) => x,
        None => {
            return Err(RowError::MissingColumn { column: String::from_str("lipids_in_grams") });
        },
    };
    let protein_text = match column_cell(header, row, "protein_in_grams", "protein") {
        Some(x) => x,
        None => {
            return Err(RowError::MissingColumn { column: String::from_str("protein_in_grams") });
        },
    };
    let energy_kcal = match Amount::parse(energy_text.as_str()) {
        Some(a) => a,
        None => {
            return Err(
                RowError::BadNumber { column: String::from_str("energy_kcal"), value: energy_text },
            );
        },
    };
    proof {
        lemma_not_bad(h, rv, "energy_kcal"@, "energ_kcal"@, energy_text@);
    }
    let fiber_in_milligrams = match Amount::parse(fiber_text.as_str()) {
        Some(a) => a,
        None => {
            return Err(
                RowError::BadNumber {
                    column: String::from_str("fiber_in_milligrams"),
                    value: fiber_text,
                },
            );
        },
    };
    proof {
        lemma_not_bad(h, rv, "fiber_in_milligrams"@, "fiber_td"@, fiber_text@);
    }
    let carbohydrates_in_grams = match Amount::parse(carbohydrates_text.as_str()) {
        Some(a) => a,
        None => {
            return Err(
                RowError::BadNumber {
                    column: String::from_str("carbohydrates_in_grams"),
                    value: carbohydrates_text,
                },
            );
        },
    };
    proof {
        lemma_not_bad(h, rv, "carbohydrates_in_grams"@, "carbohydrt"@, carbohydrates_text@);
    }
    let lipids_in_grams = match Amount::parse(lipids_text.as_str()) {
        Some(a) => a,
        None => {
            return Err(
                RowError::BadNumber {
                    column: String::from_str("lipids_in_grams"),
                    value: lipids_text,
                },
            );
        },
    };
    proof {
        lemma_not_bad(h, rv, "lipids_in_grams"@, "lipid_tot"@, lipids_text@);
    }
    let protein_in_grams = match Amount::parse(protein_text.as_str()) {
        Some(a) => a,
        None => {
            return Err(
                RowError::BadNumber {
                    column: String::from_str("protein_in_grams"),
                    value: protein_text,
                },
            );
        },
    };
    proof {
        lemma_not_bad(h, rv, "protein_in_grams"@, "protein"@, protein_text@);
        assert(code_cell(h, rv, code@));
        assert(name_cell(h, rv, name@));
        assert(energy_cell(h, rv, energy_text@) && spec_parse_amount(energy_text@) == Some(
            energy_kcal,
        ));
        assert(fiber_cell(h, rv, fiber_text@) && spec_parse_amount(fiber_text@) == Some(
            fiber_in_milligrams,
        ));
        assert(carbohydrates_cell(h, rv, carbohydrates_text@) && spec_parse_amount(
            carbohydrates_text@,
        ) == Some(carbohydrates_in_grams));
        assert(lipids_cell(h, rv, lipids_text@) && spec_parse_amount(lipids_text@) == Some(
            lipids_in_grams,
        ));
        assert(protein_cell(h, rv, protein_text@) && spec_parse_amount(protein_text@) == Some(
            protein_in_grams,
        ));
        assert(!any_missing(h, rv));
    }
    let raw = Food {
        code,
        name,
        energy_kcal,
        fiber_in_milligrams,
        carbohydrates_in_grams,
        lipids_in_grams,
        protein_in_grams,
    };
    Ok(raw.into_food())
}

/// One row's outcome given the header row and the split of this row: rows
/// that the reader refused, and every row under a refused or absent header,
/// are unreadable; the rest go through the mapping.
pub open spec fn row_post(
    h: Option<Seq<Seq<char>>>,
    row: Option<Seq<Seq<char>>>,
    res: Result<CanonicalFood, RowError>,
) -> bool {
    match (h, row) {
        (Some(hh), Some(rr)) => parse_row_post(hh, rr, res),
        _ => res == Result::<CanonicalFood, RowError>::Err(RowError::Unreadable),
    }
}

/// What loading a whole dataset text guarantees: the first split row is the
/// header, every later row yields exactly one outcome, in order.
pub open spec fn load_post(
    table: Seq<Option<Seq<Seq<char>>>>,
    out: Seq<Result<CanonicalFood, RowError>>,
) -> bool {
    &&& out.len() == if table.len() == 0 {
        0int
    } else {
        table.len() - 1
    }
    &&& forall|i: int| 0 <= i < out.len() ==> row_post(table[0], table[i + 1], #[trigger] out[i])
}

/// The delimited-text dataset adapter, reading the raw text of one dataset
/// file (opening and reading the file is its caller's concern).
pub struct Bam<'a> {
    pub text: &'a str,
}

impl<'a> Bam<'a> {
    pub fn new(text: &'a str) -> (r: Self)
        ensures
            r.text@ == text@,
    {
        Bam { text }
    }

    /// Splits the text into rows, maps the header once, and yields one
    /// outcome per data row; content-level problems never fail the call.
    pub fn load_foods(&self) -> (r: Result<Vec<Result<CanonicalFood, RowError>>, SourceError>)
        ensures
            r is Ok,
            r matches Ok(out) ==> load_post(rows_of(self.text@), out@),
    {
        let rows = split_rows(self.text);
        let ghost table = rows_of(self.text@);
        let mut out: Vec<Result<CanonicalFood, RowError>> = Vec::new();
        if rows.len() == 0 {
            return Ok(out);
        }
        let mut i: usize = 1;
        while i < rows.len()
            invariant
                1 <= i <= rows.len(),
                rows.deep_view() == table,
                out@.len() == i - 1,
                forall|j: int|
                    0 <= j < i - 1 ==> row_post(table[0], table[j + 1], #[trigger] out@[j]),
            decreases rows.len() - i,
        {
            let res = match (&rows[0], &rows[i]) {
                (Some(h), Some(r)) => parse_row(h, r),
                _ => Err(RowError::Unreadable),
            };
            out.push(res);
            i = i + 1;
        }
        Ok(out)
    }
}

impl Source for Bam<'_> {
    fn load_foods(&self) -> Result<Vec<Result<CanonicalFood, RowError>>, SourceError> {
        Bam::load_foods(self)
    }
}

} // verus!
