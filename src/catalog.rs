use vstd::prelude::*;
use vstd::string::*;

use crate::material::{void_name, MaterialData, MaterialTy, MaterialView, Phase, Registry};

verus! {

/// `10^n`.
pub open spec fn pow10(n: nat) -> int
    decreases n,
{
    if n == 0 {
        1
    } else {
        10 * pow10((n - 1) as nat)
    }
}

proof fn lemma_pow10_mono(a: nat, b: nat)
    requires
        a <= b,
    ensures
        1 <= pow10(a) <= pow10(b),
    decreases b,
{
    if b > 0 {
        if a < b {
            lemma_pow10_mono(a, (b - 1) as nat);
        } else {
            lemma_pow10_mono((a - 1) as nat, (b - 1) as nat);
        }
    }
}

/// The state of reading a decimal number character by character.
#[derive(Clone, Copy)]
pub struct Scan {
    pub ok: bool,
    pub dot: bool,
    pub int_digits: usize,
    pub frac_digits: usize,
    pub value: u128,
}

pub open spec fn is_digit(c: char) -> bool {
    '0' <= c <= '9'
}

/// Reads one more character: digits accumulate, a single `.` may follow
/// at least one digit, anything else spoils the number.
pub open spec fn step(st: Scan, c: char) -> Scan {
    if !st.ok {
        st
    } else if is_digit(c) {
        let value = (st.value * 10 + (c as int - '0' as int)) as u128;
        if st.dot {
            Scan { frac_digits: (st.frac_digits + 1) as usize, value, ..st }
        } else {
            Scan { int_digits: (st.int_digits + 1) as usize, value, ..st }
        }
    } else if c == '.' && !st.dot && st.int_digits > 0 {
        Scan { dot: true, ..st }
    } else {
        Scan { ok: false, ..st }
    }
}

pub open spec fn scan_start() -> Scan {
    Scan { ok: true, dot: false, int_digits: 0, frac_digits: 0, value: 0 }
}

pub open spec fn scan(s: Seq<char>) -> Scan
    decreases s.len(),
{
    if s.len() == 0 {
        scan_start()
    } else {
        step(scan(s.drop_last()), s.last())
    }
}

/// The longest number, sign excluded, that a catalog may write.
pub const MAX_NUMBER_LEN: usize = 24;

/// The value of the decimal `s` (`-`, digits, optionally `.` and at most
/// `frac` digits) in units of `10^-frac`, or `None` where `s` is no such number.
pub open spec fn fixed(s: Seq<char>, frac: nat) -> Option<int> {
    let neg = s.len() > 0 && s[0] == '-';
    let body = if neg {
        s.drop_first()
    } else {
        s
    };
    let st = scan(body);
    if body.len() <= MAX_NUMBER_LEN && st.ok && st.int_digits > 0 && (st.dot ==> st.frac_digits > 0)
        && st.frac_digits <= frac {
        let v = st.value * pow10((frac - st.frac_digits) as nat);
        Some(
            if neg {
                -v
            } else {
                v
            },
        )
    } else {
        None
    }
}

/// A temperature field: hundredths of a degree, within `i32`.
pub open spec fn temp_of(s: Seq<char>) -> Option<i32> {
    match fixed(s, 2) {
        Some(v) => if i32::MIN <= v <= i32::MAX {
            Some(v as i32)
        } else {
            None
        },
        None => None,
    }
}

/// A molar mass field: milligrams per mole, positive, within `u64`.
pub open spec fn molar_of(s: Seq<char>) -> Option<u64> {
    match fixed(s, 3) {
        Some(v) => if 0 < v <= u64::MAX {
            Some(v as u64)
        } else {
            None
        },
        None => None,
    }
}

/// Reads the decimal `s`, see [`fixed`].
fn parse_fixed(s: &str, frac: usize) -> (r: Option<i128>)
    requires
        frac <= 3,
    ensures
        match r {
            Some(v) => fixed(s@, frac as nat) == Some(v as int),
            None => fixed(s@, frac as nat) is None,
        },
{
    let n = s.unicode_len();
    let neg = n > 0 && s.get_char(0) == '-';
    let start: usize = if neg { 1 } else { 0 };
    let ghost body = if neg { s@.drop_first() } else { s@ };
    assert(body =~= s@.subrange(start as int, n as int));
    if n - start > MAX_NUMBER_LEN {
        return None;
    }
    let mut st = Scan { ok: true, dot: false, int_digits: 0, frac_digits: 0, value: 0 };
    let mut i: usize = start;
    assert(s@.subrange(start as int, start as int) =~= Seq::<char>::empty());
    while i < n
        invariant
            start <= i <= n,
            n == s@.len(),
            n - start <= MAX_NUMBER_LEN,
            st == scan(s@.subrange(start as int, i as int)),
            st.int_digits + st.frac_digits <= i - start,
            st.value < pow10((st.int_digits + st.frac_digits) as nat),
        decreases n - i,
    {
        let c = s.get_char(i);
        proof {
            assert(s@.subrange(start as int, i + 1).drop_last() =~= s@.subrange(start as int, i as int));
            assert(s@.subrange(start as int, i + 1).last() == c);
        }
        if st.ok {
            if '0' <= c && c <= '9' {
                let d: u128 = (c as u32 - '0' as u32) as u128;
                proof {
                    let k = (st.int_digits + st.frac_digits) as nat;
                    lemma_pow10_mono(k, 24);
                    reveal_with_fuel(pow10, 25);
                    assert(pow10(24) == 1000000000000000000000000);
                    assert(pow10(k + 1) == 10 * pow10(k));
                }
                let value = st.value * 10 + d;
                if st.dot {
                    st = Scan { frac_digits: st.frac_digits + 1, value, ..st };
                } else {
                    st = Scan { int_digits: st.int_digits + 1, value, ..st };
                }
            } else if c == '.' && !st.dot && st.int_digits > 0 {
                st = Scan { dot: true, ..st };
            } else {
                st = Scan { ok: false, ..st };
            }
        }
        i += 1;
    }
    if st.ok && st.int_digits > 0 && (!st.dot || st.frac_digits > 0) && st.frac_digits <= frac {
        let mut scale: u128 = 1;
        let mut k: usize = st.frac_digits;
        proof {
            lemma_pow10_mono((st.int_digits + st.frac_digits) as nat, 24);
            reveal_with_fuel(pow10, 25);
                    assert(pow10(24) == 1000000000000000000000000);
        }
        while k < frac
            invariant
                st.frac_digits <= k <= frac <= 3,
                scale == pow10((k - st.frac_digits) as nat),
                scale <= 1000,
            decreases frac - k,
        {
            proof {
                assert(pow10((k + 1 - st.frac_digits) as nat) == 10 * pow10((k - st.frac_digits) as nat));
                lemma_pow10_mono((k + 1 - st.frac_digits) as nat, 3);
                reveal_with_fuel(pow10, 4);
                assert(pow10(3) == 1000);
            }
            scale = scale * 10;
            k += 1;
        }
        assert(st.value * scale <= 1000000000000000000000000 * 1000) by (nonlinear_arith)
            requires st.value <= 1000000000000000000000000u128, scale <= 1000;
        let v = (st.value * scale) as i128;
        if neg {
            Some(-v)
        } else {
            Some(v)
        }
    } else {
        None
    }
}

/// Whether `i` is the first column of `header` called `name`.
pub open spec fn first_match(header: Seq<Seq<char>>, name: Seq<char>, i: int) -> bool {
    0 <= i < header.len() && header[i] == name && forall|j: int| 0 <= j < i ==> header[j] != name
}

/// The first column of `header` called `name`.
pub open spec fn column(header: Seq<Seq<char>>, name: Seq<char>) -> Option<usize> {
    if exists|i: int| first_match(header, name, i) {
        Some((choose|i: int| first_match(header, name, i)) as usize)
    } else {
        None
    }
}

/// Where each field of a material stands in a row.
#[derive(Clone, Copy)]
pub struct Columns {
    pub name: Option<usize>,
    pub comment: Option<usize>,
    pub phase: Option<usize>,
    pub molar_mass: Option<usize>,
    pub cold_temp: Option<usize>,
    pub cold_product: Option<usize>,
    pub hot_temp: Option<usize>,
    pub hot_product: Option<usize>,
}

pub open spec fn columns_of(header: Seq<Seq<char>>) -> Columns {
    Columns {
        name: column(header, "name"@),
        comment: column(header, "comment"@),
        phase: column(header, "phase"@),
        molar_mass: column(header, "molar_mass"@),
        cold_temp: column(header, "cold_temp"@),
        cold_product: column(header, "cold_product"@),
        hot_temp: column(header, "hot_temp"@),
        hot_product: column(header, "hot_product"@),
    }
}

/// The text in column `c` of `row`; empty where the row has no such column.
pub open spec fn field(row: Seq<Seq<char>>, c: Option<usize>) -> Seq<char> {
    match c {
        Some(i) => if i < row.len() {
            row[i as int]
        } else {
            Seq::empty()
        },
        None => Seq::empty(),
    }
}

#[derive(Debug, Clone, Copy, PartialEq, Eq, Structural)]
pub enum RowKind {
    Gas,
    Solid,
    Liquid,
}

/// A material as one row of the catalog writes it, products still by name.
/// Fields that its phase does not use are zero or empty.
pub struct RowView {
    pub name: Seq<char>,
    pub comment: Seq<char>,
    pub kind: RowKind,
    pub molar_mass: u64,
    pub cold_temp: i32,
    pub hot_temp: i32,
    pub cold_product: Seq<char>,
    pub hot_product: Seq<char>,
}

pub struct Row {
    pub name: String,
    pub comment: String,
    pub kind: RowKind,
    pub molar_mass: u64,
    pub cold_temp: i32,
    pub hot_temp: i32,
    pub cold_product: String,
    pub hot_product: String,
}

impl Row {
    pub open spec fn view(&self) -> RowView {
        RowView {
            name: self.name@,
            comment: self.comment@,
            kind: self.kind,
            molar_mass: self.molar_mass,
            cold_temp: self.cold_temp,
            hot_temp: self.hot_temp,
            cold_product: self.cold_product@,
            hot_product: self.hot_product@,
        }
    }
}

pub open spec fn kind_of(tag: Seq<char>) -> Option<RowKind> {
    if tag == "gas"@ {
        Some(RowKind::Gas)
    } else if tag == "solid"@ {
        Some(RowKind::Solid)
    } else if tag == "liquid"@ {
        Some(RowKind::Liquid)
    } else {
        None
    }
}

/// One data row read as a material: its phase tag is `gas`, `solid` or
/// `liquid`, and the numbers that the phase needs are well formed.
pub open spec fn row_of(c: Columns, row: Seq<Seq<char>>) -> Option<RowView> {
    match kind_of(field(row, c.phase)) {
        None => None,
        Some(k) => {
            let cold = k != RowKind::Solid;
            let hot = k != RowKind::Gas;
            let mm = if k == RowKind::Gas {
                molar_of(field(row, c.molar_mass))
            } else {
                Some(0u64)
            };
            let ct = if cold {
                temp_of(field(row, c.cold_temp))
            } else {
                Some(0i32)
            };
            let ht = if hot {
                temp_of(field(row, c.hot_temp))
            } else {
                Some(0i32)
            };
            if mm is Some && ct is Some && ht is Some {
                Some(
                    RowView {
                        name: field(row, c.name),
                        comment: field(row, c.comment),
                        kind: k,
                        molar_mass: mm->0,
                        cold_temp: ct->0,
                        hot_temp: ht->0,
                        cold_product: if cold {
                            field(row, c.cold_product)
                        } else {
                            Seq::empty()
                        },
                        hot_product: if hot {
                            field(row, c.hot_product)
                        } else {
                            Seq::empty()
                        },
                    },
                )
            } else {
                None
            }
        },
    }
}

/// Compares two strings by their characters.
fn same(a: &str, b: &str) -> (r: bool)
    ensures
        r == (a@ == b@),
{
    a.to_owned() == b.to_owned()
}

fn find_column(header: &Vec<String>, name: &str) -> (r: Option<usize>)
    ensures
        r == column(header@.map_values(|f: String| f@), name@),
{
    let ghost h = header@.map_values(|f: String| f@);
    let mut i: usize = 0;
    while i < header.len()
        invariant
            i <= header@.len(),
            h == header@.map_values(|f: String| f@),
            forall|j: int| 0 <= j < i ==> h[j] != name@,
        decreases header@.len() - i,
    {
        if same(header[i].as_str(), name) {
            assert(first_match(h, name@, i as int));
            assert forall|k: int| first_match(h, name@, k) implies k == i by {
                if k < i {
                } else if k > i {
                    assert(h[i as int] == name@);
                }
            }
            return Some(i);
        }
        i += 1;
    }
    assert(!exists|k: int| first_match(h, name@, k));
    None
}

fn field_text(row: &Vec<String>, c: Option<usize>) -> (r: String)
    ensures
        r@ == field(row@.map_values(|f: String| f@), c),
{
    match c {
        Some(i) => if i < row.len() {
            row[i].clone()
        } else {
            String::new()
        },
        None => String::new(),
    }
}

fn parse_temp(s: &str) -> (r: Option<i32>)
    ensures
        r == temp_of(s@),
{
    match parse_fixed(s, 2) {
        Some(v) => if -2147483648 <= v && v <= 2147483647 {
            Some(v as i32)
        } else {
            None
        },
        None => None,
    }
}

fn parse_molar(s: &str) -> (r: Option<u64>)
    ensures
        r == molar_of(s@),
{
    match parse_fixed(s, 3) {
        Some(v) => if 0 < v && v <= 18446744073709551615 {
            Some(v as u64)
        } else {
            None
        },
        None => None,
    }
}

/// Reads one data row, see [`row_of`].
fn parse_row(c: &Columns, row: &Vec<String>) -> (r: Option<Row>)
    ensures
        match r {
            Some(x) => row_of(*c, row@.map_values(|f: String| f@)) == Some(x@),
            None => row_of(*c, row@.map_values(|f: String| f@)) is None,
        },
{
    let tag = field_text(row, c.phase);
    let kind = if same(tag.as_str(), "gas") {
        RowKind::Gas
    } else if same(tag.as_str(), "solid") {
        RowKind::Solid
    } else if same(tag.as_str(), "liquid") {
        RowKind::Liquid
    } else {
        return None;
    };
    let cold = kind != RowKind::Solid;
    let hot = kind != RowKind::Gas;
    let mm = if kind == RowKind::Gas {
        parse_molar(field_text(row, c.molar_mass).as_str())
    } else {
        Some(0u64)
    };
    let ct = if cold {
        parse_temp(field_text(row, c.cold_temp).as_str())
    } else {
        Some(0i32)
    };
    let ht = if hot {
        parse_temp(field_text(row, c.hot_temp).as_str())
    } else {
        Some(0i32)
    };
    match (mm, ct, ht) {
        (Some(molar_mass), Some(cold_temp), Some(hot_temp)) => Some(
            Row {
                name: field_text(row, c.name),
                comment: field_text(row, c.comment),
                kind,
                molar_mass,
                cold_temp,
                hot_temp,
                cold_product: if cold {
                    field_text(row, c.cold_product)
                } else {
                    String::new()
                },
                hot_product: if hot {
                    field_text(row, c.hot_product)
                } else {
                    String::new()
                },
            },
        ),
        _ => None,
    }
}

/// Why a catalog could not be loaded. A row is numbered by its line in the
/// table, the header being line 0.
#[derive(Debug, Clone, Copy, PartialEq, Eq, Structural)]
pub enum LoadError {
    /// The text is not well-formed CSV.
    Csv,
    /// The table has no header, or the header lacks `name`, `comment` or `phase`.
    MissingColumn,
    /// A row's phase tag or one of the numbers its phase needs is malformed.
    MalformedRow(usize),
    /// A row repeats the name of an earlier row.
    DuplicateName(usize),
    /// A row names a product that no row defines.
    UnknownProduct(usize),
    /// No material is called `void`.
    MissingVoid,
}

/// The data rows read one by one; the first that fails is reported.
pub open spec fn rows_of(c: Columns, rows: Seq<Seq<Seq<char>>>) -> Result<Seq<RowView>, LoadError>
    decreases rows.len(),
{
    if rows.len() == 0 {
        Ok(Seq::empty())
    } else {
        match rows_of(c, rows.drop_last()) {
            Err(e) => Err(e),
            Ok(v) => match row_of(c, rows.last()) {
                Some(r) => Ok(v.push(r)),
                None => Err(LoadError::MalformedRow(rows.len() as usize)),
            },
        }
    }
}

/// Row `j` repeats the name of an earlier row.
pub open spec fn repeats(v: Seq<RowView>, j: int) -> bool {
    exists|i: int| 0 <= i < j && v[i].name == v[j].name
}

pub open spec fn first_repeat(v: Seq<RowView>, j: int) -> bool {
    0 <= j < v.len() && repeats(v, j) && forall|k: int| 0 <= k < j ==> !repeats(v, k)
}

/// Some row is called `n`.
pub open spec fn defines(v: Seq<RowView>, n: Seq<char>) -> bool {
    exists|i: int| 0 <= i < v.len() && v[i].name == n
}

/// Every product that row `r` names is defined.
pub open spec fn resolves(v: Seq<RowView>, r: RowView) -> bool {
    (r.kind != RowKind::Solid ==> defines(v, r.cold_product)) && (r.kind != RowKind::Gas ==> defines(
        v,
        r.hot_product,
    ))
}

pub open spec fn first_unresolved(v: Seq<RowView>, j: int) -> bool {
    0 <= j < v.len() && !resolves(v, v[j]) && forall|k: int| 0 <= k < j ==> resolves(v, v[k])
}

/// The slot of the row called `n`.
pub open spec fn slot_of(v: Seq<RowView>, n: Seq<char>) -> MaterialTy {
    MaterialTy { slot: (choose|i: int| 0 <= i < v.len() && v[i].name == n) as usize }
}

/// Row `r` as a material, its products resolved to slots.
pub open spec fn material_of(v: Seq<RowView>, r: RowView) -> MaterialView {
    MaterialView {
        name: r.name,
        comment: r.comment,
        phase: match r.kind {
            RowKind::Gas => Phase::Gas {
                molar_mass: r.molar_mass,
                cold_temp: r.cold_temp,
                cold_product: slot_of(v, r.cold_product),
            },
            RowKind::Solid => Phase::Solid {
                hot_temp: r.hot_temp,
                hot_product: slot_of(v, r.hot_product),
            },
            RowKind::Liquid => Phase::Liquid {
                hot_temp: r.hot_temp,
                hot_product: slot_of(v, r.hot_product),
                cold_temp: r.cold_temp,
                cold_product: slot_of(v, r.cold_product),
            },
        },
    }
}

/// The catalog that a table describes: its first row is the header, every
/// other row a material. Checked in this order: the columns `name`,
/// `comment` and `phase` exist; every row is well formed; no name repeats;
/// every product is defined; `void` is defined.
pub open spec fn catalog_of(table: Seq<Seq<Seq<char>>>) -> Result<Seq<MaterialView>, LoadError> {
    if table.len() == 0 {
        Err(LoadError::MissingColumn)
    } else {
        let c = columns_of(table[0]);
        if c.name is None || c.comment is None || c.phase is None {
            Err(LoadError::MissingColumn)
        } else {
            match rows_of(c, table.drop_first()) {
                Err(e) => Err(e),
                Ok(v) => if exists|j: int| first_repeat(v, j) {
                    Err(LoadError::DuplicateName(((choose|j: int| first_repeat(v, j)) + 1) as usize))
                } else if exists|j: int| first_unresolved(v, j) {
                    Err(
                        LoadError::UnknownProduct(
                            ((choose|j: int| first_unresolved(v, j)) + 1) as usize,
                        ),
                    )
                } else if !defines(v, void_name()) {
                    Err(LoadError::MissingVoid)
                } else {
                    Ok(v.map_values(|r: RowView| material_of(v, r)))
                },
            }
        }
    }
}

pub open spec fn table_view(rows: Seq<Vec<String>>) -> Seq<Seq<Seq<char>>> {
    rows.map_values(|r: Vec<String>| r@.map_values(|f: String| f@))
}

#[verifier::external_type_specification]
#[verifier::external_body]
pub struct ExCsvError(csv::Error);

/// The records of a CSV text, as csv reads it: no header row, whitespace
/// trimmed around every field, all records of one length.
pub uninterp spec fn csv_table(text: Seq<char>) -> Option<Seq<Seq<Seq<char>>>>;

/// Relies on csv's `ReaderBuilder` (`has_headers(false)`, `Trim::All`) and
/// `Reader::records`: the records of `text`, which depend on the text alone.
#[verifier::external_body]
fn read_table(text: &str) -> (r: Result<Vec<Vec<String>>, csv::Error>)
    ensures
        match r {
            Ok(rows) => csv_table(text@) == Some(table_view(rows@)),
            Err(_) => csv_table(text@) is None,
        },
{
    csv::ReaderBuilder::new()
        .has_headers(false)
        .trim(csv::Trim::All)
        .from_reader(text.as_bytes())
        .records()
        .map(|rec| rec.map(|r| r.iter().map(|f| f.to_string()).collect()))
        .collect()
}

pub open spec fn rows_view(rows: Seq<Row>) -> Seq<RowView> {
    rows.map_values(|r: Row| r@)
}

/// The first row called `name`.
fn find_name(rows: &Vec<Row>, name: &String) -> (r: Option<usize>)
    ensures
        match r {
            Some(i) => i < rows@.len() && rows@[i as int].name@ == name@,
            None => !defines(rows_view(rows@), name@),
        },
{
    let mut i: usize = 0;
    while i < rows.len()
        invariant
            i <= rows@.len(),
            forall|k: int| 0 <= k < i ==> rows@[k].name@ != name@,
        decreases rows@.len() - i,
    {
        if rows[i].name == *name {
            return Some(i);
        }
        i += 1;
    }
    None
}

impl Registry {
    /// Loads the catalog written as CSV in `text`, see [`catalog_of`].
    pub fn load(text: &str) -> (r: Result<Registry, LoadError>)
        ensures
            match csv_table(text@) {
                None => r == Err::<Registry, LoadError>(LoadError::Csv),
                Some(t) => match r {
                    Ok(reg) => catalog_of(t) == Ok::<Seq<MaterialView>, LoadError>(reg@),
                    Err(e) => catalog_of(t) == Err::<Seq<MaterialView>, LoadError>(e),
                },
            },
    {
        match read_table(text) {
            Ok(table) => Registry::from_rows(&table),
            Err(_) => Err(LoadError::Csv),
        }
    }

    /// Builds the catalog that `table` describes, see [`catalog_of`].
    pub fn from_rows(table: &Vec<Vec<String>>) -> (r: Result<Registry, LoadError>)
        ensures
            match r {
                Ok(reg) => catalog_of(table_view(table@)) == Ok::<Seq<MaterialView>, LoadError>(reg@),
                Err(e) => catalog_of(table_view(table@)) == Err::<Seq<MaterialView>, LoadError>(e),
            },
    {
        let ghost tv = table_view(table@);
        if table.len() == 0 {
            return Err(LoadError::MissingColumn);
        }
        let header = &table[0];
        assert(tv[0] == header@.map_values(|f: String| f@));
        let c = Columns {
            name: find_column(header, "name"),
            comment: find_column(header, "comment"),
            phase: find_column(header, "phase"),
            molar_mass: find_column(header, "molar_mass"),
            cold_temp: find_column(header, "cold_temp"),
            cold_product: find_column(header, "cold_product"),
            hot_temp: find_column(header, "hot_temp"),
            hot_product: find_column(header, "hot_product"),
        };
        assert(c == columns_of(tv[0]));
        if c.name.is_none() || c.comment.is_none() || c.phase.is_none() {
            return Err(LoadError::MissingColumn);
        }
        let mut rows: Vec<Row> = Vec::new();
        let mut i: usize = 1;
        assert(tv.subrange(1, 1) =~= Seq::<Seq<Seq<char>>>::empty());
        assert(rows_view(rows@) =~= Seq::<RowView>::empty());
        while i < table.len()
            invariant
                1 <= i <= table@.len(),
                tv == table_view(table@),
                tv.len() == table@.len(),
                rows@.len() + 1 == i,
                c.name is Some && c.comment is Some && c.phase is Some,
                c == columns_of(tv[0]),
                rows_of(c, tv.subrange(1, i as int)) == Ok::<Seq<RowView>, LoadError>(rows_view(rows@)),
                forall|k: int| 0 <= k < rows@.len() ==> (#[trigger] rows@[k]).kind == RowKind::Gas ==> rows@[k].molar_mass > 0,
            decreases table@.len() - i,
        {
            assert(tv.subrange(1, i + 1).drop_last() =~= tv.subrange(1, i as int));
            assert(tv.subrange(1, i + 1).last() == table@[i as int]@.map_values(|f: String| f@));
            match parse_row(&c, &table[i]) {
                Some(row) => {
                    let ghost before = rows@;
                    let ghost rv = row@;
                    rows.push(row);
                    assert(rows_view(rows@) =~= rows_view(before).push(rv));
                },
                None => {
                    proof {
                        assert(tv.subrange(1, i + 1) =~= tv.drop_first().subrange(0, i as int));
                        lemma_rows_err_stays(c, tv.drop_first(), i as int);
                        assert(rows_of(c, tv.subrange(1, i + 1)) == Err::<Seq<RowView>, LoadError>(LoadError::MalformedRow(i)));
                        assert(rows_of(c, tv.drop_first()) == Err::<Seq<RowView>, LoadError>(LoadError::MalformedRow(i)));
                    }
                    return Err(LoadError::MalformedRow(i));
                },
            }
            i += 1;
        }
        assert(tv.subrange(1, tv.len() as int) =~= tv.drop_first());
        let ghost v = rows_view(rows@);
        // no name repeats
        let mut j: usize = 0;
        while j < rows.len()
            invariant
                j <= rows@.len(),
                v == rows_view(rows@),
                forall|k: int| 0 <= k < j ==> !repeats(v, k),
                tv == table_view(table@),
                tv.len() == table@.len() >= 1,
                rows@.len() + 1 == table@.len() <= usize::MAX,
                rows_of(c, tv.drop_first()) == Ok::<Seq<RowView>, LoadError>(v),
                c == columns_of(tv[0]),
                c.name is Some && c.comment is Some && c.phase is Some,
            decreases rows@.len() - j,
        {
            let mut k: usize = 0;
            while k < j
                invariant
                    k <= j < rows@.len(),
                    v == rows_view(rows@),
                    forall|m: int| 0 <= m < j ==> !repeats(v, m),
                    tv == table_view(table@),
                    tv.len() == table@.len() >= 1,
                    rows@.len() + 1 == table@.len() <= usize::MAX,
                    rows_of(c, tv.drop_first()) == Ok::<Seq<RowView>, LoadError>(v),
                    c == columns_of(tv[0]),
                    c.name is Some && c.comment is Some && c.phase is Some,
                    forall|m: int| 0 <= m < k ==> v[m].name != v[j as int].name,
                decreases j - k,
            {
                if rows[k].name == rows[j].name {
                    assert(v[k as int] == rows@[k as int]@);
                    assert(v[j as int] == rows@[j as int]@);
                    assert(repeats(v, j as int));
                    assert(v.len() == rows@.len());
                    assert(first_repeat(v, j as int));
                    assert forall|x: int| first_repeat(v, x) implies x == j by {
                        if x < j {
                        } else if x > j {
                            assert(repeats(v, j as int));
                        }
                    }
                    return Err(LoadError::DuplicateName(j + 1));
                }
                k += 1;
            }
            j += 1;
        }
        assert(!exists|x: int| first_repeat(v, x));
        // resolve products
        let mut materials: Vec<MaterialData> = Vec::new();
        let mut j: usize = 0;
        while j < rows.len()
            invariant
                j <= rows@.len(),
                v == rows_view(rows@),
                materials@.len() == j,
                forall|x: int| 0 <= x < v.len() ==> !repeats(v, x),
                !exists|x: int| first_repeat(v, x),
                tv.len() == table@.len() >= 1,
                rows@.len() + 1 == table@.len() <= usize::MAX,
                rows_of(c, tv.drop_first()) == Ok::<Seq<RowView>, LoadError>(v),
                c == columns_of(tv[0]),
                c.name is Some && c.comment is Some && c.phase is Some,
                tv == table_view(table@),
                forall|k: int| 0 <= k < rows@.len() ==> (#[trigger] rows@[k]).kind == RowKind::Gas ==> rows@[k].molar_mass > 0,
                forall|x: int| 0 <= x < j ==> resolves(v, v[x]),
                forall|x: int| 0 <= x < j ==> (#[trigger] materials@[x])@ == material_of(v, v[x]),
                forall|x: int| 0 <= x < j ==> crate::material::products_below(#[trigger] materials@[x].phase, v.len()),
            decreases rows@.len() - j,
        {
            let row = &rows[j];
            let cold = if row.kind != RowKind::Solid {
                match find_name(&rows, &row.cold_product) {
                    Some(s) => s,
                    None => {
                        proof {
                            assert(v[j as int] == rows@[j as int]@);
                            assert(first_unresolved(v, j as int));
                            assert forall|x: int| first_unresolved(v, x) implies x == j by {
                                if x > j {
                                    assert(resolves(v, v[j as int]));
                                }
                            }
                        }
                        return Err(LoadError::UnknownProduct(j + 1));
                    },
                }
            } else {
                0
            };
            let hot = if row.kind != RowKind::Gas {
                match find_name(&rows, &row.hot_product) {
                    Some(s) => s,
                    None => {
                        proof {
                            assert(v[j as int] == rows@[j as int]@);
                            assert(first_unresolved(v, j as int));
                            assert forall|x: int| first_unresolved(v, x) implies x == j by {
                                if x > j {
                                    assert(resolves(v, v[j as int]));
                                }
                            }
                        }
                        return Err(LoadError::UnknownProduct(j + 1));
                    },
                }
            } else {
                0
            };
            let phase = match row.kind {
                RowKind::Gas => Phase::Gas {
                    molar_mass: row.molar_mass,
                    cold_temp: row.cold_temp,
                    cold_product: MaterialTy { slot: cold },
                },
                RowKind::Solid => Phase::Solid { hot_temp: row.hot_temp, hot_product: MaterialTy { slot: hot } },
                RowKind::Liquid => Phase::Liquid {
                    hot_temp: row.hot_temp,
                    hot_product: MaterialTy { slot: hot },
                    cold_temp: row.cold_temp,
                    cold_product: MaterialTy { slot: cold },
                },
            };
            proof {
                if row.kind != RowKind::Solid {
                    assert(v[cold as int].name == v[j as int].cold_product);
                    lemma_slot_unique(v, cold as int);
                }
                if row.kind != RowKind::Gas {
                    assert(v[hot as int].name == v[j as int].hot_product);
                    lemma_slot_unique(v, hot as int);
                }
            }
            materials.push(MaterialData { name: row.name.clone(), comment: row.comment.clone(), phase });
            j += 1;
        }
        assert(!exists|x: int| first_unresolved(v, x));
        let void_text = "void".to_owned();
        let void = match find_name(&rows, &void_text) {
            Some(s) => s,
            None => {
                return Err(LoadError::MissingVoid);
            },
        };
        let ghost mv = materials@.map_values(|d: MaterialData| d@);
        assert(mv =~= v.map_values(|r: RowView| material_of(v, r)));
        proof {
            assert forall|x: int, y: int|
                0 <= x < mv.len() && 0 <= y < mv.len() && #[trigger] mv[x].name == #[trigger] mv[y].name implies x == y by {
                if x < y {
                    assert(repeats(v, y));
                } else if y < x {
                    assert(repeats(v, x));
                }
            }
            assert forall|x: int| 0 <= x < mv.len() implies crate::material::phase_sane(#[trigger] mv[x].phase) by {
                assert(materials@[x]@ == material_of(v, v[x]));
            }
            assert forall|x: int| 0 <= x < mv.len() implies crate::material::products_below(#[trigger] mv[x].phase, mv.len()) by {
                assert(materials@[x]@.phase == materials@[x].phase);
            }
        }
        Ok(Registry::from_parts(materials, MaterialTy { slot: void }))
    }
}

/// Once a prefix of the rows fails, the whole fails the same way.
proof fn lemma_rows_err_stays(c: Columns, rows: Seq<Seq<Seq<char>>>, n: int)
    requires
        0 <= n <= rows.len(),
        rows_of(c, rows.subrange(0, n)) is Err,
    ensures
        rows_of(c, rows) == rows_of(c, rows.subrange(0, n)),
    decreases rows.len() - n,
{
    if n < rows.len() {
        assert(rows.subrange(0, n + 1).drop_last() =~= rows.subrange(0, n));
        lemma_rows_err_stays(c, rows, n + 1);
    } else {
        assert(rows.subrange(0, n) =~= rows);
    }
}

/// With no repeated names, the row at `i` is the one that its name resolves to.
proof fn lemma_slot_unique(v: Seq<RowView>, i: int)
    requires
        0 <= i < v.len() <= usize::MAX,
        forall|x: int| 0 <= x < v.len() ==> !repeats(v, x),
    ensures
        slot_of(v, v[i].name).slot == i,
{
    assert(exists|k: int| 0 <= k < v.len() && v[k].name == v[i].name) by {
        assert(0 <= i < v.len() && v[i].name == v[i].name);
    }
    let k = choose|k: int| 0 <= k < v.len() && v[k].name == v[i].name;
    assert(slot_of(v, v[i].name).slot == k);
    if k < i {
        assert(repeats(v, i));
    } else if k > i {
        assert(repeats(v, k));
    }
}

} // verus!
