//! Run-time values: numbers, literals, and the collections that a script
//! builds or receives from a web service.
//!
//! A value lives in a cell of a [`Heap`]; a [`Data`] names a cell. Copying a
//! `Data` shares the cell, so a list held by two variables is one list: what is
//! appended through one name is seen through the other.
use vstd::prelude::*;
use crate::float::{
    Comparison, compare_ints, float_compare, float_order, i64_to_float_bits, int_to_float_bits,
    is_nan_bits, u64_to_float_bits,
};
use crate::text::{int_text, nat_digits, push_i64, push_str, push_u64, chars_to_string, parse_usize_text, strings_view};
use crate::err_handle::{ChimeraRuntimeFailure, FailureV, VarTypes};
use crate::frontend::Context;
use crate::abstract_syntax_tree::{Value, error_print_text};

verus! {

// ---------------------------------------------------------------------------
// Numbers
// ---------------------------------------------------------------------------

/// A floating-point number: its IEEE-754 binary64 encoding, and the text that
/// shows it.
#[derive(Debug, Clone)]
pub struct Float {
    pub bits: u64,
    pub shown: String,
}

pub struct FloatV {
    pub bits: u64,
    pub shown: Seq<char>,
}

impl View for Float {
    type V = FloatV;

    open spec fn view(&self) -> FloatV {
        FloatV { bits: self.bits, shown: self.shown@ }
    }
}

impl Float {
    pub fn new(bits: u64, shown: String) -> (r: Self)
        ensures
            r.bits == bits,
            r.shown@ == shown@,
    {
        Float { bits, shown }
    }

    pub fn duplicate(&self) -> (r: Self)
        ensures
            r@ == self@,
    {
        Float { bits: self.bits, shown: self.shown.clone() }
    }
}

/// A number of the language: a signed or unsigned 64-bit integer, or a
/// floating-point number.
#[derive(Debug, Clone)]
pub enum NumberKind {
    I64(i64),
    U64(u64),
    F64(Float),
}

pub enum NumberV {
    I64(i64),
    U64(u64),
    F64(FloatV),
}

impl View for NumberKind {
    type V = NumberV;

    open spec fn view(&self) -> NumberV {
        match self {
            NumberKind::I64(i) => NumberV::I64(*i),
            NumberKind::U64(u) => NumberV::U64(*u),
            NumberKind::F64(f) => NumberV::F64(f@),
        }
    }
}

/// The integer a number holds, when it holds one.
pub open spec fn number_int(n: NumberV) -> Option<int> {
    match n {
        NumberV::I64(i) => Some(i as int),
        NumberV::U64(u) => Some(u as int),
        NumberV::F64(_) => None,
    }
}

/// The binary64 encoding of a number: integers are converted as `as f64` does.
pub open spec fn number_float_bits(n: NumberV) -> u64 {
    match n {
        NumberV::I64(i) => int_to_float_bits(i as int) as u64,
        NumberV::U64(u) => int_to_float_bits(u as int) as u64,
        NumberV::F64(f) => f.bits,
    }
}

/// The order of two numbers. Two integers compare exactly, whatever their
/// kinds; when either is a float both are compared as binary64 values, the
/// integer converted as `as f64` does, and a NaN is unordered.
pub open spec fn number_order(a: NumberV, b: NumberV) -> Option<Comparison> {
    match (number_int(a), number_int(b)) {
        (Some(x), Some(y)) => Some(compare_ints(x, y)),
        _ => float_order(number_float_bits(a), number_float_bits(b)),
    }
}

/// Numbers are equal when they are ordered and neither is less.
pub open spec fn number_equal(a: NumberV, b: NumberV) -> bool {
    number_order(a, b) == Some(Comparison::Equal)
}

/// The text of a number.
pub open spec fn number_text(n: NumberV) -> Seq<char> {
    match n {
        NumberV::I64(i) => int_text(i as int),
        NumberV::U64(u) => nat_digits(u as nat),
        NumberV::F64(f) => f.shown,
    }
}

/// The number as an index, when it is a non-negative integer that fits in `usize`.
pub open spec fn number_as_usize(n: NumberV) -> Option<usize> {
    match number_int(n) {
        Some(i) => if 0 <= i <= usize::MAX { Some(i as usize) } else { None },
        None => None,
    }
}

impl NumberKind {
    /// Compares two numbers; see [`number_order`].
    pub fn compare(&self, other: &NumberKind) -> (r: Option<Comparison>)
        ensures
            r == number_order(self@, other@),
    {
        match (self, other) {
            (NumberKind::I64(a), NumberKind::I64(b)) => Some(order_i128(*a as i128, *b as i128)),
            (NumberKind::I64(a), NumberKind::U64(b)) => Some(order_i128(*a as i128, *b as i128)),
            (NumberKind::U64(a), NumberKind::I64(b)) => Some(order_i128(*a as i128, *b as i128)),
            (NumberKind::U64(a), NumberKind::U64(b)) => Some(order_i128(*a as i128, *b as i128)),
            _ => float_compare(self.float_bits(), other.float_bits()),
        }
    }

    /// The binary64 encoding of this number.
    pub fn float_bits(&self) -> (r: u64)
        ensures
            r == number_float_bits(self@),
    {
        match self {
            NumberKind::I64(i) => i64_to_float_bits(*i),
            NumberKind::U64(u) => u64_to_float_bits(*u),
            NumberKind::F64(f) => f.bits,
        }
    }

    /// Whether two numbers are equal; see [`number_equal`].
    pub fn equals(&self, other: &NumberKind) -> (r: bool)
        ensures
            r == number_equal(self@, other@),
    {
        match self.compare(other) {
            Some(Comparison::Equal) => true,
            _ => false,
        }
    }

    pub fn to_usize(&self) -> (r: Option<usize>)
        ensures
            r == number_as_usize(self@),
    {
        match self {
            NumberKind::I64(i) => if *i >= 0 && (*i as u64) as u128 <= usize::MAX as u128 {
                Some(*i as usize)
            } else {
                None
            },
            NumberKind::U64(u) => if (*u as u128) <= usize::MAX as u128 {
                Some(*u as usize)
            } else {
                None
            },
            NumberKind::F64(_) => None,
        }
    }

    /// Appends the text of this number.
    pub fn push_text(&self, out: &mut Vec<char>)
        ensures
            final(out)@ == old(out)@ + number_text(self@),
    {
        match self {
            NumberKind::I64(i) => push_i64(out, *i),
            NumberKind::U64(u) => push_u64(out, *u),
            NumberKind::F64(f) => push_str(out, f.shown.as_str()),
        }
    }

    pub fn duplicate(&self) -> (r: Self)
        ensures
            r@ == self@,
    {
        match self {
            NumberKind::I64(i) => NumberKind::I64(*i),
            NumberKind::U64(u) => NumberKind::U64(*u),
            NumberKind::F64(f) => NumberKind::F64(f.duplicate()),
        }
    }
}

fn order_i128(a: i128, b: i128) -> (r: Comparison)
    ensures
        r == compare_ints(a as int, b as int),
{
    if a < b {
        Comparison::Less
    } else if a == b {
        Comparison::Equal
    } else {
        Comparison::Greater
    }
}

/// Numbers are equal as [`number_equal`] says: integers by value whatever
/// their kinds, and through binary64 when a float takes part.
impl PartialEq for NumberKind {
    fn eq(&self, other: &Self) -> (r: bool) {
        self.equals(other)
    }
}

impl vstd::std_specs::cmp::PartialEqSpecImpl for NumberKind {
    open spec fn obeys_eq_spec() -> bool {
        true
    }

    open spec fn eq_spec(&self, other: &Self) -> bool {
        number_equal(self@, other@)
    }
}

// ---------------------------------------------------------------------------
// Literals
// ---------------------------------------------------------------------------

/// A single value written in a script or received in a response.
#[derive(Debug, Clone, PartialEq)]
pub enum Literal {
    String(String),
    Number(NumberKind),
    Bool(bool),
    Null,
}

pub enum LiteralV {
    Str(Seq<char>),
    Number(NumberV),
    Bool(bool),
    Null,
}

impl View for Literal {
    type V = LiteralV;

    open spec fn view(&self) -> LiteralV {
        match self {
            Literal::String(s) => LiteralV::Str(s@),
            Literal::Number(n) => LiteralV::Number(n@),
            Literal::Bool(b) => LiteralV::Bool(*b),
            Literal::Null => LiteralV::Null,
        }
    }
}

/// Literals are equal when they are the same variant holding equal values;
/// numbers compare as [`number_equal`] says.
pub open spec fn literal_equal(a: LiteralV, b: LiteralV) -> bool {
    match (a, b) {
        (LiteralV::Str(x), LiteralV::Str(y)) => x == y,
        (LiteralV::Number(x), LiteralV::Number(y)) => number_equal(x, y),
        (LiteralV::Bool(x), LiteralV::Bool(y)) => x == y,
        (LiteralV::Null, LiteralV::Null) => true,
        _ => false,
    }
}

/// The text of a literal: a string shows itself, `null` shows as `null`.
pub open spec fn literal_text(a: LiteralV) -> Seq<char> {
    match a {
        LiteralV::Str(s) => s,
        LiteralV::Number(n) => number_text(n),
        LiteralV::Bool(b) => if b { "true"@ } else { "false"@ },
        LiteralV::Null => "null"@,
    }
}

impl Literal {
    pub fn to_number(&self) -> (r: Option<NumberKind>)
        ensures
            match self@ {
                LiteralV::Number(n) => r matches Some(m) && m@ == n,
                _ => r is None,
            },
    {
        match self {
            Literal::Number(n) => Some(n.duplicate()),
            _ => None,
        }
    }

    pub fn to_str(&self) -> (r: Option<&str>)
        ensures
            match self@ {
                LiteralV::Str(s) => r matches Some(t) && t@ == s,
                _ => r is None,
            },
    {
        match self {
            Literal::String(s) => Some(s.as_str()),
            _ => None,
        }
    }

    /// Whether two literals are equal; see [`literal_equal`].
    pub fn equals(&self, other: &Literal) -> (r: bool)
        ensures
            r == literal_equal(self@, other@),
    {
        match (self, other) {
            (Literal::String(x), Literal::String(y)) => crate::text::str_eq(x.as_str(), y.as_str()),
            (Literal::Number(x), Literal::Number(y)) => x.equals(y),
            (Literal::Bool(x), Literal::Bool(y)) => *x == *y,
            (Literal::Null, Literal::Null) => true,
            _ => false,
        }
    }

    /// Appends the text of this literal.
    pub fn push_text(&self, out: &mut Vec<char>)
        ensures
            final(out)@ == old(out)@ + literal_text(self@),
    {
        match self {
            Literal::String(s) => push_str(out, s.as_str()),
            Literal::Number(n) => n.push_text(out),
            Literal::Bool(b) => if *b { push_str(out, "true") } else { push_str(out, "false") },
            Literal::Null => push_str(out, "null"),
        }
    }

    /// The text of this literal.
    pub fn to_text(&self) -> (r: String)
        ensures
            r@ == literal_text(self@),
    {
        let mut out: Vec<char> = Vec::new();
        self.push_text(&mut out);
        assert(out@ =~= literal_text(self@));
        chars_to_string(&out)
    }

    pub fn duplicate(&self) -> (r: Self)
        ensures
            r@ == self@,
    {
        match self {
            Literal::String(s) => Literal::String(s.clone()),
            Literal::Number(n) => Literal::Number(n.duplicate()),
            Literal::Bool(b) => Literal::Bool(*b),
            Literal::Null => Literal::Null,
        }
    }
}

} // verus!

verus! {

// ---------------------------------------------------------------------------
// Cells and the heap
// ---------------------------------------------------------------------------

/// A reference to a value: the index of its cell in the heap. Copies share the cell.
#[derive(Debug, Clone, Copy, PartialEq, Eq, Structural)]
pub struct Data {
    pub handle: usize,
}

/// A collection: an object of named fields, or a list.
#[derive(Debug)]
pub enum Collection {
    Object(Vec<(String, Data)>),
    List(Vec<Data>),
}

/// What a cell holds.
#[derive(Debug)]
pub enum DataKind {
    Literal(Literal),
    Collection(Collection),
}

/// The value of a cell.
pub enum CellV {
    Lit(LiteralV),
    Object(Seq<(Seq<char>, Data)>),
    List(Seq<Data>),
}

/// The fields of an object, their names taken as character sequences.
pub open spec fn entries_view(s: Seq<(String, Data)>) -> Seq<(Seq<char>, Data)> {
    Seq::new(s.len(), |i: int| (s[i].0@, s[i].1))
}

impl View for DataKind {
    type V = CellV;

    open spec fn view(&self) -> CellV {
        match self {
            DataKind::Literal(l) => CellV::Lit(l@),
            DataKind::Collection(Collection::Object(es)) => CellV::Object(entries_view(es@)),
            DataKind::Collection(Collection::List(xs)) => CellV::List(xs@),
        }
    }
}

/// The first field named `key`.
pub open spec fn lookup(es: Seq<(Seq<char>, Data)>, key: Seq<char>) -> Option<Data>
    decreases es.len(),
{
    if es.len() == 0 {
        None
    } else if es[0].0 == key {
        Some(es[0].1)
    } else {
        lookup(es.drop_first(), key)
    }
}

/// No two fields share a name.
pub open spec fn keys_unique(es: Seq<(Seq<char>, Data)>) -> bool {
    forall|i: int, j: int| 0 <= i < j < es.len() ==> es[i].0 != es[j].0
}

/// Every reference in a cell names one of the first `n` cells, and an object
/// names each field once.
pub open spec fn cell_wf(c: CellV, n: nat) -> bool {
    match c {
        CellV::Lit(_) => true,
        CellV::List(xs) => forall|i: int| 0 <= i < xs.len() ==> (#[trigger] xs[i]).handle < n,
        CellV::Object(es) => {
            &&& forall|i: int| 0 <= i < es.len() ==> (#[trigger] es[i]).1.handle < n
            &&& keys_unique(es)
        },
    }
}

/// Every cell is well formed.
pub open spec fn heap_wf(h: Seq<CellV>) -> bool {
    forall|i: int| 0 <= i < h.len() ==> cell_wf(#[trigger] h[i], h.len())
}

pub proof fn lemma_cell_wf_grow(c: CellV, n: nat, m: nat)
    requires
        cell_wf(c, n),
        n <= m,
    ensures
        cell_wf(c, m),
{
}

/// A heap that grows by one well-formed cell stays well formed.
pub proof fn lemma_heap_push(h: Seq<CellV>, c: CellV)
    requires
        heap_wf(h),
        cell_wf(c, h.len() + 1),
    ensures
        heap_wf(h.push(c)),
{
    assert forall|i: int| 0 <= i < h.push(c).len() implies cell_wf(#[trigger] h.push(c)[i], h.push(c).len()) by {
        if i < h.len() {
            assert(h.push(c)[i] == h[i]);
            lemma_cell_wf_grow(h[i], h.len(), h.len() + 1);
        }
    }
}

/// Where a lookup finds a field, that field is in the object.
pub proof fn lemma_lookup_in(es: Seq<(Seq<char>, Data)>, key: Seq<char>)
    ensures
        lookup(es, key) matches Some(d) ==> exists|i: int| 0 <= i < es.len() && es[i].1 == d,
    decreases es.len(),
{
    if es.len() > 0 && es[0].0 != key {
        lemma_lookup_in(es.drop_first(), key);
        if let Some(d) = lookup(es, key) {
            let i = choose|i: int| 0 <= i < es.drop_first().len() && es.drop_first()[i].1 == d;
            assert(es[i + 1].1 == d);
        }
    } else if es.len() > 0 {
        assert(es[0].1 == lookup(es, key)->0);
    }
}

/// The memory of a running test: one cell per value.
pub struct Heap {
    pub cells: Vec<DataKind>,
}

impl View for Heap {
    type V = Seq<CellV>;

    open spec fn view(&self) -> Seq<CellV> {
        Seq::new(self.cells.len() as nat, |i: int| self.cells@[i]@)
    }
}

impl Heap {
    pub fn new() -> (r: Self)
        ensures
            r@ == Seq::<CellV>::empty(),
    {
        let r = Heap { cells: Vec::new() };
        assert(r@ =~= Seq::<CellV>::empty());
        r
    }

    pub fn len(&self) -> (r: usize)
        ensures
            r == self@.len(),
    {
        self.cells.len()
    }

    /// Stores a value in a new cell.
    pub fn store(&mut self, kind: DataKind) -> (d: Data)
        ensures
            final(self)@ == old(self)@.push(kind@),
            d.handle == old(self)@.len(),
    {
        let d = Data { handle: self.cells.len() };
        self.cells.push(kind);
        assert(final(self)@ =~= old(self)@.push(kind@));
        d
    }

    /// The value in a cell.
    pub fn get(&self, d: Data) -> (r: &DataKind)
        requires
            d.handle < self@.len(),
        ensures
            r@ == self@[d.handle as int],
    {
        &self.cells[d.handle]
    }
}

} // verus!

verus! {

// ---------------------------------------------------------------------------
// Equality of values
// ---------------------------------------------------------------------------

/// Whether two values are equal: literals as [`literal_equal`] says, lists item
/// by item, objects field by field whatever the order of their fields. `None`
/// when `fuel` nested levels do not suffice, which only a value that contains
/// itself can need when the fuel is the number of cells.
pub open spec fn data_equal(h: Seq<CellV>, a: Data, b: Data, fuel: nat) -> Option<bool>
    decreases fuel, 0nat,
{
    if fuel == 0 || a.handle >= h.len() || b.handle >= h.len() {
        None
    } else {
        match (h[a.handle as int], h[b.handle as int]) {
            (CellV::Lit(x), CellV::Lit(y)) => Some(literal_equal(x, y)),
            (CellV::List(xs), CellV::List(ys)) => if xs.len() != ys.len() {
                Some(false)
            } else {
                items_equal(h, xs, ys, (fuel - 1) as nat)
            },
            (CellV::Object(xs), CellV::Object(ys)) => if xs.len() != ys.len() {
                Some(false)
            } else {
                fields_equal(h, xs, ys, (fuel - 1) as nat)
            },
            _ => Some(false),
        }
    }
}

/// Lists compared item by item, from the first, stopping at the first pair
/// that is not equal.
pub open spec fn items_equal(h: Seq<CellV>, xs: Seq<Data>, ys: Seq<Data>, fuel: nat) -> Option<bool>
    decreases fuel, xs.len(),
{
    if xs.len() == 0 || ys.len() == 0 {
        Some(true)
    } else {
        match data_equal(h, xs[0], ys[0], fuel) {
            Some(true) => items_equal(h, xs.drop_first(), ys.drop_first(), fuel),
            r => r,
        }
    }
}

/// Each field of `xs`, from the first, must be a field of `ys` with an equal value.
pub open spec fn fields_equal(
    h: Seq<CellV>,
    xs: Seq<(Seq<char>, Data)>,
    ys: Seq<(Seq<char>, Data)>,
    fuel: nat,
) -> Option<bool>
    decreases fuel, xs.len(),
{
    if xs.len() == 0 {
        Some(true)
    } else {
        match lookup(ys, xs[0].0) {
            None => Some(false),
            Some(v) => match data_equal(h, v, xs[0].1, fuel) {
                Some(true) => fields_equal(h, xs.drop_first(), ys, fuel),
                r => r,
            },
        }
    }
}

/// Finds the first field named `key`.
pub fn lookup_field(es: &Vec<(String, Data)>, key: &str) -> (r: Option<Data>)
    ensures
        r == lookup(entries_view(es@), key@),
{
    let ghost v = entries_view(es@);
    assert(v.skip(0) =~= v);
    let mut i: usize = 0;
    while i < es.len()
        invariant
            i <= es.len(),
            v == entries_view(es@),
            lookup(v, key@) == lookup(v.skip(i as int), key@),
        decreases es.len() - i,
    {
        assert(v.skip(i as int)[0] == v[i as int]);
        assert(v.skip(i as int).drop_first() =~= v.skip(i + 1));
        if crate::text::str_eq(es[i].0.as_str(), key) {
            return Some(es[i].1);
        }
        i = i + 1;
    }
    assert(v.skip(i as int).len() == 0);
    None
}

impl Heap {
    /// Whether the values in two cells are equal; see [`data_equal`].
    pub fn data_equal(&self, a: Data, b: Data, fuel: u64) -> (r: Option<bool>)
        requires
            heap_wf(self@),
            a.handle < self@.len(),
            b.handle < self@.len(),
        ensures
            r == data_equal(self@, a, b, fuel as nat),
        decreases fuel, 0nat,
    {
        if fuel == 0 {
            return None;
        }
        proof {
            assert(cell_wf(self@[a.handle as int], self@.len()));
            assert(cell_wf(self@[b.handle as int], self@.len()));
        }
        match (self.get(a), self.get(b)) {
            (DataKind::Literal(x), DataKind::Literal(y)) => Some(x.equals(y)),
            (DataKind::Collection(Collection::List(xs)), DataKind::Collection(Collection::List(ys))) => {
                if xs.len() != ys.len() {
                    return Some(false);
                }
                self.items_equal(xs, ys, fuel - 1)
            },
            (DataKind::Collection(Collection::Object(xs)), DataKind::Collection(Collection::Object(ys))) => {
                if xs.len() != ys.len() {
                    return Some(false);
                }
                proof {
                    assert forall|i: int| 0 <= i < xs@.len() implies (#[trigger] xs@[i]).1.handle < self@.len() by {
                        assert(entries_view(xs@)[i].1 == xs@[i].1);
                    }
                    assert forall|i: int| 0 <= i < ys@.len() implies (#[trigger] ys@[i]).1.handle < self@.len() by {
                        assert(entries_view(ys@)[i].1 == ys@[i].1);
                    }
                }
                self.fields_equal(xs, ys, fuel - 1)
            },
            _ => Some(false),
        }
    }

    fn items_equal(&self, xs: &Vec<Data>, ys: &Vec<Data>, fuel: u64) -> (r: Option<bool>)
        requires
            heap_wf(self@),
            xs.len() == ys.len(),
            forall|i: int| 0 <= i < xs@.len() ==> (#[trigger] xs@[i]).handle < self@.len(),
            forall|i: int| 0 <= i < ys@.len() ==> (#[trigger] ys@[i]).handle < self@.len(),
        ensures
            r == items_equal(self@, xs@, ys@, fuel as nat),
        decreases fuel, 1nat,
    {
        assert(xs@.skip(0) =~= xs@);
        assert(ys@.skip(0) =~= ys@);
        let mut i: usize = 0;
        while i < xs.len()
            invariant
                i <= xs.len() == ys.len(),
                heap_wf(self@),
                forall|k: int| 0 <= k < xs@.len() ==> (#[trigger] xs@[k]).handle < self@.len(),
                forall|k: int| 0 <= k < ys@.len() ==> (#[trigger] ys@[k]).handle < self@.len(),
                items_equal(self@, xs@, ys@, fuel as nat)
                    == items_equal(self@, xs@.skip(i as int), ys@.skip(i as int), fuel as nat),
            decreases xs.len() - i,
        {
            assert(xs@.skip(i as int)[0] == xs@[i as int]);
            assert(ys@.skip(i as int)[0] == ys@[i as int]);
            assert(xs@.skip(i as int).drop_first() =~= xs@.skip(i + 1));
            assert(ys@.skip(i as int).drop_first() =~= ys@.skip(i + 1));
            let r = self.data_equal(xs[i], ys[i], fuel);
            match r {
                Some(true) => {},
                _ => {
                    return r;
                },
            }
            i = i + 1;
        }
        assert(xs@.skip(i as int).len() == 0);
        Some(true)
    }

    fn fields_equal(&self, xs: &Vec<(String, Data)>, ys: &Vec<(String, Data)>, fuel: u64) -> (r: Option<bool>)
        requires
            heap_wf(self@),
            forall|i: int| 0 <= i < xs@.len() ==> (#[trigger] xs@[i]).1.handle < self@.len(),
            forall|i: int| 0 <= i < ys@.len() ==> (#[trigger] ys@[i]).1.handle < self@.len(),
        ensures
            r == fields_equal(self@, entries_view(xs@), entries_view(ys@), fuel as nat),
        decreases fuel, 1nat,
    {
        let ghost vx = entries_view(xs@);
        let ghost vy = entries_view(ys@);
        assert(vx.skip(0) =~= vx);
        let mut i: usize = 0;
        while i < xs.len()
            invariant
                i <= xs.len(),
                heap_wf(self@),
                vx == entries_view(xs@),
                vy == entries_view(ys@),
                forall|k: int| 0 <= k < xs@.len() ==> (#[trigger] xs@[k]).1.handle < self@.len(),
                forall|k: int| 0 <= k < ys@.len() ==> (#[trigger] ys@[k]).1.handle < self@.len(),
                fields_equal(self@, vx, vy, fuel as nat)
                    == fields_equal(self@, vx.skip(i as int), vy, fuel as nat),
            decreases xs.len() - i,
        {
            assert(vx.skip(i as int)[0] == vx[i as int]);
            assert(vx.skip(i as int).drop_first() =~= vx.skip(i + 1));
            match lookup_field(ys, xs[i].0.as_str()) {
                None => {
                    return Some(false);
                },
                Some(v) => {
                    proof {
                        lemma_lookup_in(vy, vx[i as int].0);
                        let j = choose|j: int| 0 <= j < vy.len() && vy[j].1 == v;
                        assert(ys@[j].1 == v);
                    }
                    let r = self.data_equal(v, xs[i].1, fuel);
                    match r {
                        Some(true) => {},
                        _ => {
                            return r;
                        },
                    }
                },
            }
            i = i + 1;
        }
        assert(vx.skip(i as int).len() == 0);
        Some(true)
    }
}

} // verus!

verus! {

// ---------------------------------------------------------------------------
// Text of values
// ---------------------------------------------------------------------------

/// The text of a value: a literal shows as [`literal_text`] says, a list as
/// `[a, b]`, an object as its fields `{"name"}":"{value}"` one after another.
/// `None` when a cell on the way is the one held mutably (`locked`), or when
/// `fuel` nested levels do not suffice.
pub open spec fn data_text(h: Seq<CellV>, d: Data, locked: Option<usize>, fuel: nat) -> Option<Seq<char>>
    decreases fuel, 0nat,
{
    if fuel == 0 || d.handle >= h.len() || locked == Some(d.handle) {
        None
    } else {
        match h[d.handle as int] {
            CellV::Lit(l) => Some(literal_text(l)),
            CellV::List(xs) => match items_text(h, xs, locked, (fuel - 1) as nat) {
                Some(t) => Some("["@ + t + "]"@),
                None => None,
            },
            CellV::Object(es) => fields_text(h, es, locked, (fuel - 1) as nat),
        }
    }
}

/// The texts of items, joined with `, `.
pub open spec fn items_text(h: Seq<CellV>, xs: Seq<Data>, locked: Option<usize>, fuel: nat) -> Option<Seq<char>>
    decreases fuel, xs.len(),
{
    if xs.len() == 0 {
        Some(Seq::empty())
    } else {
        match (items_text(h, xs.drop_last(), locked, fuel), data_text(h, xs.last(), locked, fuel)) {
            (Some(p), Some(t)) => Some(if xs.len() == 1 { t } else { p + ", "@ + t }),
            _ => None,
        }
    }
}

/// The text of one field.
pub open spec fn field_text(name: Seq<char>, value: Seq<char>) -> Seq<char> {
    "{\""@ + name + "\"}\":\"{"@ + value + "}\""@
}

/// The texts of fields, one after another.
pub open spec fn fields_text(h: Seq<CellV>, es: Seq<(Seq<char>, Data)>, locked: Option<usize>, fuel: nat) -> Option<Seq<char>>
    decreases fuel, es.len(),
{
    if es.len() == 0 {
        Some(Seq::empty())
    } else {
        match (fields_text(h, es.drop_last(), locked, fuel), data_text(h, es.last().1, locked, fuel)) {
            (Some(p), Some(t)) => Some(p + field_text(es.last().0, t)),
            _ => None,
        }
    }
}

/// The text of a value with as much fuel as there are cells.
pub open spec fn value_text(h: Seq<CellV>, d: Data, locked: Option<usize>) -> Option<Seq<char>> {
    data_text(h, d, locked, h.len())
}

impl Heap {
    /// Appends the text of a value; `false` where [`data_text`] gives none.
    pub fn push_data_text(&self, out: &mut Vec<char>, d: Data, locked: Option<usize>, fuel: u64) -> (ok: bool)
        requires
            heap_wf(self@),
            d.handle < self@.len(),
        ensures
            ok == data_text(self@, d, locked, fuel as nat) is Some,
            ok ==> final(out)@ == old(out)@ + data_text(self@, d, locked, fuel as nat)->0,
        decreases fuel, 0nat,
    {
        if fuel == 0 {
            return false;
        }
        match locked {
            Some(l) => if l == d.handle {
                return false;
            },
            None => {},
        }
        proof {
            assert(cell_wf(self@[d.handle as int], self@.len()));
        }
        match self.get(d) {
            DataKind::Literal(l) => {
                l.push_text(out);
                true
            },
            DataKind::Collection(Collection::List(xs)) => {
                crate::text::push_str(out, "[");
                let ghost mid = out@;
                let ok = self.push_items_text(out, xs, locked, fuel - 1);
                if !ok {
                    return false;
                }
                crate::text::push_str(out, "]");
                assert(out@ =~= old(out)@ + data_text(self@, d, locked, fuel as nat)->0);
                true
            },
            DataKind::Collection(Collection::Object(es)) => {
                proof {
                    assert forall|i: int| 0 <= i < es@.len() implies (#[trigger] es@[i]).1.handle < self@.len() by {
                        assert(entries_view(es@)[i].1 == es@[i].1);
                    }
                }
                self.push_fields_text(out, es, locked, fuel - 1)
            },
        }
    }

    fn push_items_text(&self, out: &mut Vec<char>, xs: &Vec<Data>, locked: Option<usize>, fuel: u64) -> (ok: bool)
        requires
            heap_wf(self@),
            forall|i: int| 0 <= i < xs@.len() ==> (#[trigger] xs@[i]).handle < self@.len(),
        ensures
            ok == items_text(self@, xs@, locked, fuel as nat) is Some,
            ok ==> final(out)@ == old(out)@ + items_text(self@, xs@, locked, fuel as nat)->0,
        decreases fuel, 1nat,
    {
        let ghost start = out@;
        let mut i: usize = 0;
        assert(xs@.take(0) =~= Seq::<Data>::empty());
        while i < xs.len()
            invariant
                i <= xs.len(),
                heap_wf(self@),
                forall|k: int| 0 <= k < xs@.len() ==> (#[trigger] xs@[k]).handle < self@.len(),
                items_text(self@, xs@.take(i as int), locked, fuel as nat) is Some,
                out@ == start + items_text(self@, xs@.take(i as int), locked, fuel as nat)->0,
            decreases xs.len() - i,
        {
            assert(xs@.take(i + 1).drop_last() =~= xs@.take(i as int));
            assert(xs@.take(i + 1).last() == xs@[i as int]);
            let ghost p = items_text(self@, xs@.take(i as int), locked, fuel as nat)->0;
            if i > 0 {
                crate::text::push_str(out, ", ");
            }
            let ghost before = out@;
            let ok = self.push_data_text(out, xs[i], locked, fuel);
            if !ok {
                proof {
                    lemma_items_text_none(self@, xs@, locked, fuel as nat, i as int + 1);
                }
                return false;
            }
            proof {
                let t = data_text(self@, xs@[i as int], locked, fuel as nat)->0;
                assert(out@ == before + t);
                assert(items_text(self@, xs@.take(i + 1), locked, fuel as nat)
                    == Some(if i == 0 { t } else { p + ", "@ + t }));
                if i == 0 {
                    assert(p =~= Seq::<char>::empty()) by {
                        assert(xs@.take(0).len() == 0);
                    }
                }
            }
            i = i + 1;
            assert(out@ =~= start + items_text(self@, xs@.take(i as int), locked, fuel as nat)->0);
        }
        assert(xs@.take(i as int) =~= xs@);
        true
    }

    fn push_fields_text(&self, out: &mut Vec<char>, es: &Vec<(String, Data)>, locked: Option<usize>, fuel: u64) -> (ok: bool)
        requires
            heap_wf(self@),
            forall|i: int| 0 <= i < es@.len() ==> (#[trigger] es@[i]).1.handle < self@.len(),
        ensures
            ok == fields_text(self@, entries_view(es@), locked, fuel as nat) is Some,
            ok ==> final(out)@ == old(out)@ + fields_text(self@, entries_view(es@), locked, fuel as nat)->0,
        decreases fuel, 1nat,
    {
        let ghost start = out@;
        let ghost v = entries_view(es@);
        let mut i: usize = 0;
        assert(v.take(0) =~= Seq::<(Seq<char>, Data)>::empty());
        while i < es.len()
            invariant
                i <= es.len(),
                heap_wf(self@),
                v == entries_view(es@),
                forall|k: int| 0 <= k < es@.len() ==> (#[trigger] es@[k]).1.handle < self@.len(),
                fields_text(self@, v.take(i as int), locked, fuel as nat) is Some,
                out@ == start + fields_text(self@, v.take(i as int), locked, fuel as nat)->0,
            decreases es.len() - i,
        {
            assert(v.take(i + 1).drop_last() =~= v.take(i as int));
            assert(v.take(i + 1).last() == v[i as int]);
            let ghost before = out@;
            crate::text::push_str(out, "{\"");
            crate::text::push_str(out, es[i].0.as_str());
            crate::text::push_str(out, "\"}\":\"{");
            let ghost mid = out@;
            let ok = self.push_data_text(out, es[i].1, locked, fuel);
            if !ok {
                proof {
                    lemma_fields_text_none(self@, v, locked, fuel as nat, i as int + 1);
                }
                return false;
            }
            crate::text::push_str(out, "}\"");
            i = i + 1;
            assert(out@ =~= start + fields_text(self@, v.take(i as int), locked, fuel as nat)->0);
        }
        assert(v.take(i as int) =~= v);
        true
    }

    /// The text of a value, or `None` as [`value_text`] says.
    pub fn value_text(&self, d: Data, locked: Option<usize>) -> (r: Option<String>)
        requires
            heap_wf(self@),
            d.handle < self@.len(),
        ensures
            match value_text(self@, d, locked) {
                Some(t) => r matches Some(s) && s@ == t,
                None => r is None,
            },
    {
        let mut out: Vec<char> = Vec::new();
        let ok = self.push_data_text(&mut out, d, locked, self.cells.len() as u64);
        if ok {
            assert(out@ =~= value_text(self@, d, locked)->0);
            Some(chars_to_string(&out))
        } else {
            None
        }
    }
}

/// Once a prefix of the items has no text, no longer prefix has one.
proof fn lemma_items_text_none(h: Seq<CellV>, xs: Seq<Data>, locked: Option<usize>, fuel: nat, n: int)
    requires
        0 < n <= xs.len(),
        items_text(h, xs.take(n), locked, fuel) is None,
    ensures
        items_text(h, xs, locked, fuel) is None,
    decreases xs.len() - n,
{
    if n < xs.len() {
        assert(xs.take(n + 1).drop_last() =~= xs.take(n));
        lemma_items_text_none(h, xs, locked, fuel, n + 1);
    } else {
        assert(xs.take(n) =~= xs);
    }
}

proof fn lemma_fields_text_none(h: Seq<CellV>, es: Seq<(Seq<char>, Data)>, locked: Option<usize>, fuel: nat, n: int)
    requires
        0 < n <= es.len(),
        fields_text(h, es.take(n), locked, fuel) is None,
    ensures
        fields_text(h, es, locked, fuel) is None,
    decreases es.len() - n,
{
    if n < es.len() {
        assert(es.take(n + 1).drop_last() =~= es.take(n));
        lemma_fields_text_none(h, es, locked, fuel, n + 1);
    } else {
        assert(es.take(n) =~= es);
    }
}

} // verus!

verus! {

// ---------------------------------------------------------------------------
// Reaching into collections
// ---------------------------------------------------------------------------

/// Why a value held mutably cannot be read.
pub open spec fn borrow_reason() -> Seq<char> {
    "Cannot borrow a variable when it has a mutable reference in use"@
}

/// Follows accessors from a value: a field name into an object, an index into
/// a list. Reading a collection that is held mutably (`held`) is a borrow error.
pub open spec fn access_path(
    h: Seq<CellV>,
    d: Data,
    accessors: Seq<Seq<char>>,
    var_name: Seq<char>,
    held: Option<usize>,
    line: i32,
) -> Result<Data, FailureV>
    decreases accessors.len(),
{
    if accessors.len() == 0 {
        Ok(d)
    } else if held == Some(d.handle) {
        Err(FailureV::BorrowError(line, borrow_reason()))
    } else {
        match h[d.handle as int] {
            CellV::Object(es) => match lookup(es, accessors[0]) {
                Some(v) => access_path(h, v, accessors.drop_first(), var_name, held, line),
                None => Err(FailureV::BadSubfieldAccess(Some(var_name), accessors[0], line)),
            },
            CellV::List(xs) => match parse_usize_text(accessors[0]) {
                None => Err(FailureV::TriedToIndexWithNonNumber(line)),
                Some(i) => if i < xs.len() {
                    access_path(h, xs[i as int], accessors.drop_first(), var_name, held, line)
                } else {
                    Err(FailureV::OutOfBounds(line))
                },
            },
            CellV::Lit(_) => Err(FailureV::BadSubfieldAccess(Some(var_name), accessors[0], line)),
        }
    }
}

/// Resolves `name.a.b` from the value of `name`; the first accessor is the
/// variable's name.
pub open spec fn resolve_access_spec(
    h: Seq<CellV>,
    d: Data,
    accessors: Seq<Seq<char>>,
    held: Option<usize>,
    line: i32,
) -> Result<Data, FailureV> {
    if accessors.len() == 0 {
        Err(FailureV::InternalError("resolving the access of a Literal"@))
    } else {
        access_path(h, d, accessors.drop_first(), accessors[0], held, line)
    }
}

/// A path that resolves ends at a cell of the heap.
pub proof fn lemma_access_in_heap(
    h: Seq<CellV>,
    d: Data,
    accessors: Seq<Seq<char>>,
    var_name: Seq<char>,
    held: Option<usize>,
    line: i32,
)
    requires
        heap_wf(h),
        d.handle < h.len(),
    ensures
        access_path(h, d, accessors, var_name, held, line) matches Ok(r) ==> r.handle < h.len(),
    decreases accessors.len(),
{
    if accessors.len() > 0 && held != Some(d.handle) {
        assert(cell_wf(h[d.handle as int], h.len()));
        match h[d.handle as int] {
            CellV::Object(es) => {
                lemma_lookup_in(es, accessors[0]);
                if let Some(v) = lookup(es, accessors[0]) {
                    lemma_access_in_heap(h, v, accessors.drop_first(), var_name, held, line);
                }
            },
            CellV::List(xs) => {
                if let Some(i) = parse_usize_text(accessors[0]) {
                    if i < xs.len() {
                        lemma_access_in_heap(h, xs[i as int], accessors.drop_first(), var_name, held, line);
                    }
                }
            },
            _ => {},
        }
    }
}

impl Data {
    pub fn new(heap: &mut Heap, data_kind: DataKind) -> (r: Data)
        ensures
            final(heap)@ == old(heap)@.push(data_kind@),
            r.handle == old(heap)@.len(),
    {
        heap.store(data_kind)
    }

    pub fn from_literal(heap: &mut Heap, lit: Literal) -> (r: Data)
        ensures
            final(heap)@ == old(heap)@.push(CellV::Lit(lit@)),
            r.handle == old(heap)@.len(),
    {
        heap.store(DataKind::Literal(lit))
    }

    pub fn from_vec(heap: &mut Heap, v: Vec<Data>) -> (r: Data)
        ensures
            final(heap)@ == old(heap)@.push(CellV::List(v@)),
            r.handle == old(heap)@.len(),
    {
        heap.store(DataKind::Collection(Collection::List(v)))
    }

    /// Reads the value; a borrow error when it is held mutably.
    pub fn borrow<'a>(&self, heap: &'a Heap, context: &Context, held: Option<usize>) -> (r: Result<&'a DataKind, ChimeraRuntimeFailure>)
        requires
            self.handle < heap@.len(),
        ensures
            held == Some(self.handle) ==> (r matches Err(e) && e@ == FailureV::BorrowError(context.current_line, borrow_reason())),
            held != Some(self.handle) ==> (r matches Ok(k) && k@ == heap@[self.handle as int]),
    {
        match held {
            Some(x) => if x == self.handle {
                return Err(ChimeraRuntimeFailure::BorrowError(
                    context.current_line,
                    "Cannot borrow a variable when it has a mutable reference in use".to_owned(),
                ));
            },
            None => {},
        }
        Ok(heap.get(*self))
    }

    /// Resolves an access such as `name.body.0` from the value of `name`;
    /// see [`resolve_access_spec`].
    pub fn resolve_access(&self, heap: &Heap, accessors: &Vec<String>, context: &Context, held: Option<usize>) -> (r: Result<Data, ChimeraRuntimeFailure>)
        requires
            heap_wf(heap@),
            self.handle < heap@.len(),
        ensures
            match resolve_access_spec(heap@, *self, strings_view(accessors@), held, context.current_line) {
                Ok(d) => r == Ok::<Data, ChimeraRuntimeFailure>(d) && d.handle < heap@.len(),
                Err(e) => r matches Err(f) && f@ == e,
            },
    {
        let ghost accs = strings_view(accessors@);
        if accessors.len() == 0 {
            return Err(ChimeraRuntimeFailure::InternalError("resolving the access of a Literal".to_owned()));
        }
        let var_name = &accessors[0];
        let ghost name = accs[0];
        let mut cur: Data = *self;
        let mut i: usize = 1;
        assert(accs.skip(1) =~= accs.drop_first());
        while i < accessors.len()
            invariant
                1 <= i <= accessors.len(),
                heap_wf(heap@),
                cur.handle < heap@.len(),
                accs == strings_view(accessors@),
                name == accessors@[0]@,
                var_name@ == name,
                resolve_access_spec(heap@, *self, accs, held, context.current_line)
                    == access_path(heap@, cur, accs.skip(i as int), name, held, context.current_line),
            decreases accessors.len() - i,
        {
            let ghost rest = accs.skip(i as int);
            assert(rest[0] == accessors@[i as int]@);
            assert(rest.drop_first() =~= accs.skip(i + 1));
            let accessor = accessors[i].as_str();
            let kind = match cur.borrow(heap, context, held) {
                Ok(k) => k,
                Err(e) => {
                    return Err(e);
                },
            };
            proof {
                assert(cell_wf(heap@[cur.handle as int], heap@.len()));
            }
            match kind {
                DataKind::Collection(Collection::Object(obj)) => {
                    match lookup_field(obj, accessor) {
                        Some(v) => {
                            proof {
                                lemma_lookup_in(entries_view(obj@), accessor@);
                            }
                            cur = v;
                        },
                        None => {
                            return Err(ChimeraRuntimeFailure::BadSubfieldAccess(
                                Some(var_name.clone()),
                                accessor.to_owned(),
                                context.current_line,
                            ));
                        },
                    }
                },
                DataKind::Collection(Collection::List(list)) => {
                    match crate::text::parse_usize(accessor) {
                        None => {
                            return Err(ChimeraRuntimeFailure::TriedToIndexWithNonNumber(context.current_line));
                        },
                        Some(index) => {
                            if index < list.len() {
                                cur = list[index];
                            } else {
                                return Err(ChimeraRuntimeFailure::OutOfBounds(context.current_line));
                            }
                        },
                    }
                },
                DataKind::Literal(_) => {
                    return Err(ChimeraRuntimeFailure::BadSubfieldAccess(
                        Some(var_name.clone()),
                        accessor.to_owned(),
                        context.current_line,
                    ));
                },
            }
            i = i + 1;
        }
        assert(accs.skip(i as int).len() == 0);
        Ok(cur)
    }
}

} // verus!

verus! {

// ---------------------------------------------------------------------------
// Reading a value as a given kind
// ---------------------------------------------------------------------------

/// The error for a value of the wrong kind.
pub open spec fn wrong_type(came_from: Seq<char>, expected: VarTypes, line: i32) -> FailureV {
    FailureV::VarWrongType(came_from, expected, line)
}

/// The number a cell holds, when it holds one.
pub open spec fn cell_number(c: CellV) -> Option<NumberV> {
    match c {
        CellV::Lit(LiteralV::Number(n)) => Some(n),
        _ => None,
    }
}

impl DataKind {
    pub fn to_number(&self) -> (r: Option<NumberKind>)
        ensures
            match cell_number(self@) {
                Some(n) => r matches Some(m) && m@ == n,
                None => r is None,
            },
    {
        match self {
            DataKind::Collection(_) => None,
            DataKind::Literal(literal) => literal.to_number(),
        }
    }

    pub fn to_list(&self) -> (r: Option<&Vec<Data>>)
        ensures
            match self@ {
                CellV::List(xs) => r matches Some(v) && v@ == xs,
                _ => r is None,
            },
    {
        match self {
            DataKind::Collection(Collection::List(list)) => Some(list),
            _ => None,
        }
    }

    pub fn try_into_literal(&self, came_from: &Value, context: &Context) -> (r: Result<&Literal, ChimeraRuntimeFailure>)
        ensures
            match self@ {
                CellV::Lit(l) => r matches Ok(m) && m@ == l,
                _ => r matches Err(e) && e@ == wrong_type(error_print_text(came_from@), VarTypes::Literal, context.current_line),
            },
    {
        match self {
            DataKind::Literal(literal) => Ok(literal),
            DataKind::Collection(_) => Err(ChimeraRuntimeFailure::VarWrongType(
                came_from.error_print(),
                VarTypes::Literal,
                context.current_line,
            )),
        }
    }

    pub fn try_into_number_kind(&self, came_from: &Value, context: &Context) -> (r: Result<NumberKind, ChimeraRuntimeFailure>)
        ensures
            match cell_number(self@) {
                Some(n) => r matches Ok(m) && m@ == n,
                None => r matches Err(e) && e@ == wrong_type(error_print_text(came_from@), VarTypes::Number, context.current_line),
            },
    {
        match self.to_number() {
            Some(n) => Ok(n),
            None => Err(ChimeraRuntimeFailure::VarWrongType(
                came_from.error_print(),
                VarTypes::Number,
                context.current_line,
            )),
        }
    }

    /// The value as an index: a number that is a non-negative integer fitting in `usize`.
    pub fn try_into_usize(&self, came_from: &Value, context: &Context) -> (r: Result<usize, ChimeraRuntimeFailure>)
        ensures
            match cell_number(self@) {
                Some(n) => match number_as_usize(n) {
                    Some(i) => r == Ok::<usize, ChimeraRuntimeFailure>(i),
                    None => r matches Err(e) && e@ == wrong_type(error_print_text(came_from@), VarTypes::Unsigned, context.current_line),
                },
                None => r matches Err(e) && e@ == wrong_type(error_print_text(came_from@), VarTypes::Number, context.current_line),
            },
    {
        let number_kind = self.try_into_number_kind(came_from, context)?;
        number_kind.try_into_usize(came_from, context)
    }

    /// The value as an unsigned integer: only an unsigned number qualifies.
    pub fn try_into_u64(&self, came_from: &Value, context: &Context) -> (r: Result<u64, ChimeraRuntimeFailure>)
        ensures
            match self@ {
                CellV::Lit(LiteralV::Number(NumberV::U64(u))) => r == Ok::<u64, ChimeraRuntimeFailure>(u),
                _ => r matches Err(e) && e@ == wrong_type(error_print_text(came_from@), VarTypes::Unsigned, context.current_line),
            },
    {
        match self {
            DataKind::Literal(Literal::Number(NumberKind::U64(unsigned))) => Ok(*unsigned),
            _ => Err(ChimeraRuntimeFailure::VarWrongType(
                came_from.error_print(),
                VarTypes::Unsigned,
                context.current_line,
            )),
        }
    }

    pub fn try_into_list(&self, came_from: String, context: &Context) -> (r: Result<&Vec<Data>, ChimeraRuntimeFailure>)
        ensures
            match self@ {
                CellV::List(xs) => r matches Ok(v) && v@ == xs,
                _ => r matches Err(e) && e@ == wrong_type(came_from@, VarTypes::List, context.current_line),
            },
    {
        match self.to_list() {
            Some(list) => Ok(list),
            None => Err(ChimeraRuntimeFailure::VarWrongType(came_from, VarTypes::List, context.current_line)),
        }
    }

    pub fn try_into_string(&self, came_from: String, context: &Context) -> (r: Result<&str, ChimeraRuntimeFailure>)
        ensures
            match self@ {
                CellV::Lit(LiteralV::Str(s)) => r matches Ok(t) && t@ == s,
                _ => r matches Err(e) && e@ == wrong_type(came_from@, VarTypes::String, context.current_line),
            },
    {
        match self {
            DataKind::Literal(Literal::String(s)) => Ok(s.as_str()),
            _ => Err(ChimeraRuntimeFailure::VarWrongType(came_from, VarTypes::String, context.current_line)),
        }
    }
}

impl NumberKind {
    pub fn try_into_usize(&self, came_from: &Value, context: &Context) -> (r: Result<usize, ChimeraRuntimeFailure>)
        ensures
            match number_as_usize(self@) {
                Some(i) => r == Ok::<usize, ChimeraRuntimeFailure>(i),
                None => r matches Err(e) && e@ == wrong_type(error_print_text(came_from@), VarTypes::Unsigned, context.current_line),
            },
    {
        match self.to_usize() {
            Some(i) => Ok(i),
            None => Err(ChimeraRuntimeFailure::VarWrongType(
                came_from.error_print(),
                VarTypes::Unsigned,
                context.current_line,
            )),
        }
    }
}

// ---------------------------------------------------------------------------
// Membership
// ---------------------------------------------------------------------------

/// Why a comparison stopped: a value that contains itself.
pub open spec fn self_containing_reason() -> Seq<char> {
    "comparing a value that contains itself"@
}

/// Whether an item of the list, from the first, equals `item`.
pub open spec fn list_contains(h: Seq<CellV>, xs: Seq<Data>, item: Data, fuel: nat) -> Option<bool>
    decreases xs.len(),
{
    if xs.len() == 0 {
        Some(false)
    } else {
        match data_equal(h, xs[0], item, fuel) {
            Some(false) => list_contains(h, xs.drop_first(), item, fuel),
            r => r,
        }
    }
}

/// `CONTAINS`: a list contains a value equal to `item`; an object contains a
/// field named by the string `item`, and `item` must be a string.
pub open spec fn collection_contains(h: Seq<CellV>, c: CellV, item: Data, line: i32) -> Result<bool, FailureV> {
    match c {
        CellV::List(xs) => match list_contains(h, xs, item, h.len()) {
            Some(b) => Ok(b),
            None => Err(FailureV::InternalError(self_containing_reason())),
        },
        CellV::Object(es) => match h[item.handle as int] {
            CellV::Lit(LiteralV::Str(s)) => Ok(lookup(es, s) is Some),
            _ => Err(wrong_type("key"@, VarTypes::String, line)),
        },
        CellV::Lit(_) => Ok(false),
    }
}

impl Collection {
    /// Whether this collection contains `contains_data`; see [`collection_contains`].
    pub fn contains(&self, heap: &Heap, contains_data: Data, context: &Context) -> (r: Result<bool, ChimeraRuntimeFailure>)
        requires
            heap_wf(heap@),
            contains_data.handle < heap@.len(),
            cell_wf(DataKind::Collection(*self)@, heap@.len()),
        ensures
            match collection_contains(heap@, DataKind::Collection(*self)@, contains_data, context.current_line) {
                Ok(b) => r == Ok::<bool, ChimeraRuntimeFailure>(b),
                Err(e) => r matches Err(f) && f@ == e,
            },
    {
        match self {
            Collection::List(list) => {
                let fuel = heap.cells.len() as u64;
                let mut i: usize = 0;
                assert(list@.skip(0) =~= list@);
                while i < list.len()
                    invariant
                        i <= list.len(),
                        heap_wf(heap@),
                        contains_data.handle < heap@.len(),
                        fuel == heap@.len(),
                        DataKind::Collection(*self)@ == CellV::List(list@),
                        forall|k: int| 0 <= k < list@.len() ==> (#[trigger] list@[k]).handle < heap@.len(),
                        list_contains(heap@, list@, contains_data, fuel as nat)
                            == list_contains(heap@, list@.skip(i as int), contains_data, fuel as nat),
                    decreases list.len() - i,
                {
                    assert(list@.skip(i as int)[0] == list@[i as int]);
                    assert(list@.skip(i as int).drop_first() =~= list@.skip(i + 1));
                    match heap.data_equal(list[i], contains_data, fuel) {
                        Some(false) => {},
                        Some(true) => {
                            return Ok(true);
                        },
                        None => {
                            return Err(ChimeraRuntimeFailure::InternalError(
                                "comparing a value that contains itself".to_owned(),
                            ));
                        },
                    }
                    i = i + 1;
                }
                assert(list@.skip(i as int).len() == 0);
                Ok(false)
            },
            Collection::Object(map) => {
                let key = heap.get(contains_data).try_into_string("key".to_owned(), context)?;
                Ok(lookup_field(map, key).is_some())
            },
        }
    }
}

} // verus!

verus! {

impl Heap {
    /// Puts `kind` into a cell and gives back what the cell held.
    pub fn replace(&mut self, d: Data, kind: DataKind) -> (r: DataKind)
        requires
            d.handle < old(self)@.len(),
        ensures
            r@ == old(self)@[d.handle as int],
            final(self)@ == old(self)@.update(d.handle as int, kind@),
    {
        let mut kind = kind;
        let ghost new_view = kind@;
        std::mem::swap(&mut self.cells[d.handle], &mut kind);
        assert(self@ =~= old(self)@.update(d.handle as int, new_view));
        kind
    }
}

} // verus!

verus! {

/// What a string read from JSON becomes: an unsigned integer when it parses
/// as one, else a signed integer, else the float `float` (the text parsed as
/// `f64`, when it parses), else a boolean, else the string itself.
pub open spec fn classify_text(s: Seq<char>, float: Option<FloatV>) -> LiteralV {
    match crate::text::parse_u64_text(s) {
        Some(u) => LiteralV::Number(NumberV::U64(u)),
        None => match crate::text::parse_i64_text(s) {
            Some(i) => LiteralV::Number(NumberV::I64(i)),
            None => match float {
                Some(f) => LiteralV::Number(NumberV::F64(f)),
                None => match crate::text::parse_bool_text(s) {
                    Some(b) => LiteralV::Bool(b),
                    None => LiteralV::Str(s),
                },
            },
        },
    }
}

/// Classifies a string read from JSON; see [`classify_text`]. `float` is the
/// string parsed as `f64`, which the caller computes.
pub fn classify_string(s: String, float: Option<Float>) -> (r: Literal)
    ensures
        r@ == classify_text(s@, match float { Some(f) => Some(f@), None => None }),
{
    match crate::text::parse_u64(s.as_str()) {
        Some(u) => Literal::Number(NumberKind::U64(u)),
        None => match crate::text::parse_i64(s.as_str()) {
            Some(i) => Literal::Number(NumberKind::I64(i)),
            None => match float {
                Some(f) => Literal::Number(NumberKind::F64(f)),
                None => match crate::text::parse_bool(s.as_str()) {
                    Some(b) => Literal::Bool(b),
                    None => Literal::String(s),
                },
            },
        },
    }
}

} // verus!
