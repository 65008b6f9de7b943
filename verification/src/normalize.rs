use crate::annotation::{
    annotated_prefix, annotation_starts_at, blank, ends_in_group, find_annotated_prefix,
    lemma_first_start, lemma_group_closes_last, lemma_no_group_no_prefix, one_line, splits_at,
};
use crate::casing::{pascal_case, to_pascal_case};
use crate::text::is_white_space;
use vstd::prelude::*;

verus! {

/// One permitted value of an enum: the text that travels on the wire and the
/// name of the case that stands for it.
#[derive(Clone, Debug, PartialEq, Eq)]
pub struct ValueMapping {
    pub wire_value: String,
    pub variant_name: String,
}

/// A `ValueMapping` as plain text.
pub struct Mapping {
    pub wire_value: Seq<char>,
    pub variant_name: Seq<char>,
}

impl View for ValueMapping {
    type V = Mapping;

    open spec fn view(&self) -> Mapping {
        Mapping { wire_value: self.wire_value@, variant_name: self.variant_name@ }
    }
}

/// The mappings that a list holds, as plain text.
pub open spec fn mappings(list: Seq<ValueMapping>) -> Seq<Mapping> {
    list.map_values(|m: ValueMapping| m@)
}

/// The texts that a list of strings holds.
pub open spec fn strings(list: Seq<String>) -> Seq<Seq<char>> {
    list.map_values(|s: String| s@)
}

/// The mapping of a raw value, by three rules in order: the empty value is
/// the case `Unspecified`; a value without `(` is taken as it stands; of a
/// value with a trailing annotation only the text before it counts, and a
/// value with `(` but no such annotation is taken as it stands.
pub open spec fn normalized(v: Seq<char>) -> Mapping {
    if v.len() == 0 {
        Mapping { wire_value: v, variant_name: "Unspecified"@ }
    } else if !v.contains('(') {
        Mapping { wire_value: v, variant_name: pascal_case(v) }
    } else {
        match annotated_prefix(v) {
            Some(p) => Mapping { wire_value: p, variant_name: pascal_case(p) },
            None => Mapping { wire_value: v, variant_name: pascal_case(v) },
        }
    }
}

/// The mapping of each raw value, in the order given.
pub open spec fn normalized_all(values: Seq<Seq<char>>) -> Seq<Mapping> {
    values.map_values(|v: Seq<char>| normalized(v))
}

/// A value without `(` has no annotation.
pub proof fn lemma_plain_value(v: Seq<char>)
    requires
        !v.contains('('),
    ensures
        annotated_prefix(v).is_none(),
{
    assert forall|k: int, open: int, close: int| !splits_at(v, k, open, close) by {
        if splits_at(v, k, open, close) {
            assert(v.contains(v[open]));
        }
    }
}

/// A value that is not empty and whose last character, white space aside, is
/// not a closing parenthesis is taken as it stands, whatever parentheses it
/// holds.
pub proof fn law_literal_fallback(v: Seq<char>)
    requires
        v.len() > 0,
        !ends_in_group(v),
    ensures
        normalized(v) == (Mapping { wire_value: v, variant_name: pascal_case(v) }),
{
    lemma_no_group_no_prefix(v);
}

/// Of a value made of a text, white space, a parenthetical group and white
/// space, only the text counts, where the text holds neither `(` nor a line
/// feed and does not end in white space, and the group holds no line feed.
pub proof fn law_annotated_value(text: Seq<char>, gap: Seq<char>, note: Seq<char>, rest: Seq<char>)
    requires
        !text.contains('('),
        one_line(text, 0, text.len() as int),
        text.len() > 0 ==> !is_white_space(text.last()),
        blank(gap, 0, gap.len() as int),
        one_line(note, 0, note.len() as int),
        blank(rest, 0, rest.len() as int),
    ensures
        normalized(text + gap + seq!['('] + note + seq![')'] + rest) == (Mapping {
            wire_value: text,
            variant_name: pascal_case(text),
        }),
{
    let v = text + gap + seq!['('] + note + seq![')'] + rest;
    let k = text.len() as int;
    let open = k + gap.len();
    let close = open + 1 + note.len();
    assert(v[open] == '(');
    assert(v.contains('('));
    assert(splits_at(v, k, open, close));
    assert forall|j: int| 0 <= j < k implies !annotation_starts_at(v, j) by {
        if annotation_starts_at(v, j) {
            let (o, cl) = choose|o: int, cl: int| splits_at(v, j, o, cl);
            lemma_group_closes_last(v, j, o, cl, close + 1);
            if o < k {
                assert(text[o] == '(');
                assert(text.contains('('));
            } else if o < open {
                assert(is_white_space(gap[o - k]));
            }
            assert(is_white_space(v[k - 1]));
        }
    }
    lemma_first_start(v, k);
    assert(v.take(k) =~= text);
}

/// Maps one raw value.
pub fn normalize(v: &str) -> (r: ValueMapping)
    ensures
        r@ == normalized(v@),
{
    if v.is_empty() {
        return ValueMapping { wire_value: v.to_owned(), variant_name: "Unspecified".to_owned() };
    }
    match find_annotated_prefix(v) {
        Some(prefix) => {
            proof {
                if !v@.contains('(') {
                    lemma_plain_value(v@);
                }
            }
            let name = to_pascal_case(prefix.as_str());
            ValueMapping { wire_value: prefix, variant_name: name }
        },
        None => ValueMapping { wire_value: v.to_owned(), variant_name: to_pascal_case(v) },
    }
}

/// Maps each raw value, in the order given.
pub fn value_mappings(values: &Vec<String>) -> (r: Vec<ValueMapping>)
    ensures
        mappings(r@) == normalized_all(strings(values@)),
        r@.len() == values@.len(),
{
    let mut r: Vec<ValueMapping> = Vec::new();
    let mut i: usize = 0;
    while i < values.len()
        invariant
            i <= values@.len(),
            r@.len() == i,
            forall|j: int| 0 <= j < i ==> (#[trigger] r@[j])@ == normalized(values@[j]@),
        decreases values@.len() - i,
    {
        r.push(normalize(values[i].as_str()));
        i = i + 1;
    }
    assert(mappings(r@) =~= normalized_all(strings(values@)));
    r
}

} // verus!
