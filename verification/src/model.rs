use crate::casing::{pascal_case, to_pascal_case};
use crate::normalize::{
    mappings, normalized, normalized_all, strings, value_mappings, Mapping, ValueMapping,
};
use vstd::prelude::*;

verus! {

/// The description of one enumerated parameter.
///
/// The three annotation blocks come ready as source text from whoever
/// formats documentation and knows about stability: `doc` is the
/// documentation block, present exactly where the enum is described;
/// `cfg_doc` is the stability notice and `cfg_attr` the feature gate, either
/// of which may be absent.
#[derive(Clone, Debug, PartialEq, Eq)]
pub struct ApiEnum {
    pub name: String,
    pub doc: Option<String>,
    pub cfg_doc: Option<String>,
    pub cfg_attr: Option<String>,
    pub values: Vec<String>,
}

/// An `ApiEnum` as plain text.
pub struct ApiEnumView {
    pub name: Seq<char>,
    pub doc: Option<Seq<char>>,
    pub cfg_doc: Option<Seq<char>>,
    pub cfg_attr: Option<Seq<char>>,
    pub values: Seq<Seq<char>>,
}

/// The text of an optional block.
pub open spec fn block_text(block: Option<String>) -> Option<Seq<char>> {
    match block {
        Some(b) => Some(b@),
        None => None,
    }
}

impl View for ApiEnum {
    type V = ApiEnumView;

    open spec fn view(&self) -> ApiEnumView {
        ApiEnumView {
            name: self.name@,
            doc: block_text(self.doc),
            cfg_doc: block_text(self.cfg_doc),
            cfg_attr: block_text(self.cfg_attr),
            values: strings(self.values@),
        }
    }
}

/// The part of an API description that is read here: its enums, in the order
/// in which they are declared.
#[derive(Clone, Debug, PartialEq, Eq)]
pub struct Api {
    pub enums: Vec<ApiEnum>,
}

/// An `Api` as plain text.
pub struct ApiView {
    pub enums: Seq<ApiEnumView>,
}

impl View for Api {
    type V = ApiView;

    open spec fn view(&self) -> ApiView {
        ApiView { enums: self.enums@.map_values(|e: ApiEnum| e@) }
    }
}

/// The type generated for one enum: its name, its annotation blocks and one
/// case for each value, in the order of the values.
#[derive(Clone, Debug, PartialEq, Eq)]
pub struct GeneratedEnum {
    pub name: String,
    pub doc: Option<String>,
    pub cfg_doc: Option<String>,
    pub cfg_attr: Option<String>,
    pub cases: Vec<ValueMapping>,
}

/// A `GeneratedEnum` as plain text.
pub struct GeneratedEnumView {
    pub name: Seq<char>,
    pub doc: Option<Seq<char>>,
    pub cfg_doc: Option<Seq<char>>,
    pub cfg_attr: Option<Seq<char>>,
    pub cases: Seq<Mapping>,
}

impl View for GeneratedEnum {
    type V = GeneratedEnumView;

    open spec fn view(&self) -> GeneratedEnumView {
        GeneratedEnumView {
            name: self.name@,
            doc: block_text(self.doc),
            cfg_doc: block_text(self.cfg_doc),
            cfg_attr: block_text(self.cfg_attr),
            cases: mappings(self.cases@),
        }
    }
}

/// The type that an enum description stands for.
pub open spec fn generated(e: ApiEnumView) -> GeneratedEnumView {
    GeneratedEnumView {
        name: pascal_case(e.name),
        doc: e.doc,
        cfg_doc: e.cfg_doc,
        cfg_attr: e.cfg_attr,
        cases: normalized_all(e.values),
    }
}

/// A copy of an optional block.
fn copy_block(block: &Option<String>) -> (r: Option<String>)
    ensures
        block_text(r) == block_text(*block),
{
    match block {
        Some(b) => Some(b.clone()),
        None => None,
    }
}

/// Builds the type that an enum description stands for.
pub fn generate_enum(e: &ApiEnum) -> (g: GeneratedEnum)
    ensures
        g@ == generated(e@),
        g.cases@.len() == e.values@.len(),
{
    GeneratedEnum {
        name: to_pascal_case(e.name.as_str()),
        doc: copy_block(&e.doc),
        cfg_doc: copy_block(&e.cfg_doc),
        cfg_attr: copy_block(&e.cfg_attr),
        cases: value_mappings(&e.values),
    }
}

/// Why a wire string could not be parsed.
#[derive(Clone, Copy, Debug, PartialEq, Eq, Structural)]
pub enum ParseError {
    /// The string is the wire value of no case.
    UnknownVariant,
}

impl ParseError {
    /// The message that the generated code gives for the error.
    pub fn message(&self) -> (r: &'static str)
        ensures
            r@ == "unknown enum variant"@,
    {
        "unknown enum variant"
    }
}

/// Some case has `wire` as its wire value.
pub open spec fn known(cases: Seq<Mapping>, wire: Seq<char>) -> bool {
    exists|i: int| 0 <= i < cases.len() && (#[trigger] cases[i]).wire_value == wire
}

/// Case `i` is the first with `wire` as its wire value.
pub open spec fn first_match(cases: Seq<Mapping>, wire: Seq<char>, i: int) -> bool {
    &&& 0 <= i < cases.len()
    &&& cases[i].wire_value == wire
    &&& forall|j: int| 0 <= j < i ==> (#[trigger] cases[j]).wire_value != wire
}

/// What the generated parse operation makes of a wire string: the first case
/// with that wire value, by its position, or the one error.
pub open spec fn parsed(cases: Seq<Mapping>, wire: Seq<char>) -> Result<int, ParseError> {
    if exists|i: int| first_match(cases, wire, i) {
        Ok(choose|i: int| first_match(cases, wire, i))
    } else {
        Err(ParseError::UnknownVariant)
    }
}

/// What the generated serialize operation makes of the case at `variant`.
pub open spec fn serialized(cases: Seq<Mapping>, variant: int) -> Seq<char>
    recommends
        0 <= variant < cases.len(),
{
    cases[variant].wire_value
}

/// No two cases share a wire value, and no two share a name.
pub open spec fn distinct(cases: Seq<Mapping>) -> bool {
    forall|i: int, j: int|
        0 <= i < j < cases.len() ==> {
            &&& (#[trigger] cases[i]).wire_value != (#[trigger] cases[j]).wire_value
            &&& cases[i].variant_name != cases[j].variant_name
        }
}

/// The first match is unique.
pub proof fn lemma_first_match(cases: Seq<Mapping>, wire: Seq<char>, i: int)
    requires
        first_match(cases, wire, i),
    ensures
        parsed(cases, wire) == Ok::<int, ParseError>(i),
{
    let c = choose|c: int| first_match(cases, wire, c);
    if c < i {
        assert(cases[c].wire_value != wire);
    } else if i < c {
        assert(cases[i].wire_value != wire);
    }
}

impl GeneratedEnum {
    /// Parses a wire string as the generated type does: the result is the
    /// position of the case.
    pub fn parse(&self, value_str: &str) -> (r: Result<usize, ParseError>)
        ensures
            match r {
                Ok(i) => parsed(self@.cases, value_str@) == Ok::<int, ParseError>(i as int),
                Err(e) => parsed(self@.cases, value_str@) == Err::<int, ParseError>(e),
            },
    {
        let ghost cases = self@.cases;
        let wanted: String = value_str.to_owned();
        let mut i: usize = 0;
        while i < self.cases.len()
            invariant
                i <= self.cases@.len(),
                cases == mappings(self.cases@),
                wanted@ == value_str@,
                forall|j: int| 0 <= j < i ==> (#[trigger] cases[j]).wire_value != value_str@,
            decreases self.cases@.len() - i,
        {
            assert(cases[i as int] == self.cases@[i as int]@);
            if self.cases[i].wire_value == wanted {
                proof {
                    lemma_first_match(cases, value_str@, i as int);
                }
                return Ok(i);
            }
            i = i + 1;
        }
        Err(ParseError::UnknownVariant)
    }

    /// Whether the cases are told apart by their wire values and by their
    /// names. Nothing here removes a case that repeats another: a type with
    /// such a case is for the caller to refuse.
    pub fn has_distinct_cases(&self) -> (r: bool)
        ensures
            r == distinct(self@.cases),
    {
        let ghost cases = self@.cases;
        let mut j: usize = 0;
        while j < self.cases.len()
            invariant
                j <= self.cases@.len(),
                cases == mappings(self.cases@),
                distinct(cases.take(j as int)),
            decreases self.cases@.len() - j,
        {
            let mut i: usize = 0;
            while i < j
                invariant
                    i <= j < self.cases@.len(),
                    cases == mappings(self.cases@),
                    forall|m: int|
                        0 <= m < i ==> {
                            &&& (#[trigger] cases[m]).wire_value != cases[j as int].wire_value
                            &&& cases[m].variant_name != cases[j as int].variant_name
                        },
                decreases j - i,
            {
                assert(cases[i as int] == self.cases@[i as int]@);
                assert(cases[j as int] == self.cases@[j as int]@);
                if self.cases[i].wire_value == self.cases[j].wire_value
                    || self.cases[i].variant_name == self.cases[j].variant_name {
                    return false;
                }
                i = i + 1;
            }
            proof {
                let now = cases.take(j as int);
                let next = cases.take(j + 1);
                assert forall|a: int, b: int| 0 <= a < b < next.len() implies {
                    &&& (#[trigger] next[a]).wire_value != (#[trigger] next[b]).wire_value
                    &&& next[a].variant_name != next[b].variant_name
                } by {
                    if b < j {
                        assert(now[a] == next[a] && now[b] == next[b]);
                    }
                }
            }
            j = j + 1;
        }
        proof {
            assert(cases.take(j as int) =~= cases);
        }
        true
    }

    /// Serializes the case at `variant` as the generated type does.
    pub fn serialize(&self, variant: usize) -> (r: String)
        requires
            variant < self@.cases.len(),
        ensures
            r@ == serialized(self@.cases, variant as int),
    {
        self.cases[variant].wire_value.clone()
    }
}

/// A string that is the wire value of no case is not parsed, and every other
/// string is.
pub proof fn law_parse_unknown(cases: Seq<Mapping>, wire: Seq<char>)
    ensures
        !known(cases, wire) <==> parsed(cases, wire) == Err::<int, ParseError>(
            ParseError::UnknownVariant,
        ),
{
    if known(cases, wire) {
        let i = choose|i: int| 0 <= i < cases.len() && (#[trigger] cases[i]).wire_value == wire;
        lemma_first_exists(cases, wire, i);
    } else {
        assert forall|i: int| !first_match(cases, wire, i) by {
            if first_match(cases, wire, i) {
                assert(cases[i].wire_value == wire);
            }
        }
    }
}

/// Where some case up to `i` has the wire value, one is the first.
proof fn lemma_first_exists(cases: Seq<Mapping>, wire: Seq<char>, i: int)
    requires
        0 <= i < cases.len(),
        cases[i].wire_value == wire,
    ensures
        exists|k: int| first_match(cases, wire, k),
    decreases i,
{
    if exists|j: int| 0 <= j < i && (#[trigger] cases[j]).wire_value == wire {
        let j = choose|j: int| 0 <= j < i && (#[trigger] cases[j]).wire_value == wire;
        lemma_first_exists(cases, wire, j);
    } else {
        assert(first_match(cases, wire, i));
    }
}

/// Parsing what a case serializes to gives that case back, where no earlier
/// case has the same wire value.
pub proof fn law_round_trip(cases: Seq<Mapping>, variant: int)
    requires
        0 <= variant < cases.len(),
        forall|j: int|
            0 <= j < variant ==> (#[trigger] cases[j]).wire_value != cases[variant].wire_value,
    ensures
        parsed(cases, serialized(cases, variant)) == Ok::<int, ParseError>(variant),
{
    lemma_first_match(cases, cases[variant].wire_value, variant);
}

/// Where the cases are distinct, parsing what any of them serializes to gives
/// that case back.
pub proof fn law_round_trip_of_distinct_cases(cases: Seq<Mapping>, variant: int)
    requires
        distinct(cases),
        0 <= variant < cases.len(),
    ensures
        parsed(cases, serialized(cases, variant)) == Ok::<int, ParseError>(variant),
{
    law_round_trip(cases, variant);
}

/// The generated type has one case for each value, in the order of the values.
pub proof fn law_one_case_per_value(e: ApiEnumView)
    ensures
        generated(e).cases.len() == e.values.len(),
        forall|i: int|
            0 <= i < e.values.len() ==> #[trigger] generated(e).cases[i] == normalized(e.values[i]),
{
}

} // verus!
