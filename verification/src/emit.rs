use crate::model::{
    block_text, generate_enum, generated, Api, ApiEnum, ApiEnumView, ApiView, GeneratedEnum,
    GeneratedEnumView,
};
use crate::normalize::{mappings, Mapping, ValueMapping};
use crate::tokens::{
    append_ident, append_literal, append_token, append_tokens, joined_all,
    lemma_joined_all_concat, lemma_joined_all_one, lemma_push, str_literal, texts, tokens_text,
};
use quote::Tokens;
use vstd::prelude::*;

verus! {

/// The traits that every generated type derives.
pub const DERIVES: [&'static str; 17] = [
    "#", "[", "derive", "(", "Debug", ",", "PartialEq", ",", "Deserialize", ",", "Serialize", ",",
    "Clone", ",", "Copy", ")", "]",
];

/// What stands before the name of the type in its definition.
pub const ENUM_HEAD: [&'static str; 2] = ["pub", "enum"];

/// What stands before the wire value in the declaration of a case.
pub const RENAME_HEAD: [&'static str; 6] = ["#", "[", "serde", "(", "rename", "="];

/// What stands between the wire value and the name of the case.
pub const RENAME_TAIL: [&'static str; 2] = [")", "]"];

/// What stands before the name of the type in its parse operation.
pub const FROM_STR_HEAD: [&'static str; 3] = ["impl", "FromStr", "for"];

/// The parse operation from the name of the type up to its first branch.
pub const FROM_STR_BODY: [&'static str; 29] = [
    "{", "type", "Err", "=", "&", "'static", "str", ";", "fn", "from_str", "(", "value_str", ":",
    "&", "str", ")", "->", "Result", "<", "Self", ",", "Self", "::", "Err", ">", "{", "match",
    "value_str", "{",
];

/// What stands between the wire value and the name of the case in a branch
/// that parses.
pub const PARSE_ARM_HEAD: [&'static str; 5] = ["=>", "Ok", "(", "Self", "::"];

/// What closes a branch that parses.
pub const PARSE_ARM_TAIL: [&'static str; 2] = [")", ","];

/// The branch for every other string, and the end of the parse operation.
pub const FROM_STR_TAIL: [&'static str; 9] = [
    "_", "=>", "Err", "(", "\"unknown enum variant\"", ")", "}", "}", "}",
];

/// What stands before the name of the type in its serialize operation.
pub const TO_STRING_HEAD: [&'static str; 3] = ["impl", "ToString", "for"];

/// The serialize operation from the name of the type up to its first branch.
pub const TO_STRING_BODY: [&'static str; 14] = [
    "{", "fn", "to_string", "(", "&", "self", ")", "->", "String", "{", "match", "&", "self", "{",
];

/// What stands before the name of the case in a branch that serializes.
pub const PRINT_ARM_HEAD: [&'static str; 2] = ["Self", "::"];

/// What follows the wire value in a branch that serializes.
pub const PRINT_ARM_TAIL: [&'static str; 5] = [".", "to_string", "(", ")", ","];

/// The end of the serialize operation.
pub const TO_STRING_TAIL: [&'static str; 3] = ["}", "}", "}"];

/// The token of an annotation block, where there is one.
pub open spec fn block_tokens(block: Option<Seq<char>>) -> Seq<Seq<char>> {
    match block {
        Some(b) => seq![b],
        None => Seq::empty(),
    }
}

/// The declaration of one case: its wire value as the name it is renamed to,
/// then the name of the case.
pub open spec fn case_tokens(m: Mapping) -> Seq<Seq<char>> {
    texts(RENAME_HEAD@) + seq![str_literal(m.wire_value)] + texts(RENAME_TAIL@) + seq![
        m.variant_name,
    ]
}

/// The declarations of the cases, in order, with a comma between two of them.
pub open spec fn case_list(cases: Seq<Mapping>) -> Seq<Seq<char>>
    decreases cases.len(),
{
    if cases.len() == 0 {
        Seq::empty()
    } else if cases.len() == 1 {
        case_tokens(cases[0])
    } else {
        case_list(cases.drop_last()) + seq![","@] + case_tokens(cases.last())
    }
}

/// The branch that parses the wire value of one case.
pub open spec fn parse_arm(m: Mapping) -> Seq<Seq<char>> {
    seq![str_literal(m.wire_value)] + texts(PARSE_ARM_HEAD@) + seq![m.variant_name] + texts(
        PARSE_ARM_TAIL@,
    )
}

/// The branches that parse, in the order of the cases.
pub open spec fn parse_arms(cases: Seq<Mapping>) -> Seq<Seq<char>>
    decreases cases.len(),
{
    if cases.len() == 0 {
        Seq::empty()
    } else {
        parse_arms(cases.drop_last()) + parse_arm(cases.last())
    }
}

/// The branch that serializes one case.
pub open spec fn print_arm(m: Mapping) -> Seq<Seq<char>> {
    texts(PRINT_ARM_HEAD@) + seq![m.variant_name, "=>"@, str_literal(m.wire_value)] + texts(
        PRINT_ARM_TAIL@,
    )
}

/// The branches that serialize, in the order of the cases.
pub open spec fn print_arms(cases: Seq<Mapping>) -> Seq<Seq<char>>
    decreases cases.len(),
{
    if cases.len() == 0 {
        Seq::empty()
    } else {
        print_arms(cases.drop_last()) + print_arm(cases.last())
    }
}

/// The definition of the type: annotations, derives and the cases.
pub open spec fn definition_tokens(g: GeneratedEnumView) -> Seq<Seq<char>> {
    block_tokens(g.doc) + block_tokens(g.cfg_doc) + block_tokens(g.cfg_attr) + texts(DERIVES@)
        + texts(ENUM_HEAD@) + seq![g.name, "{"@] + case_list(g.cases) + seq!["}"@]
}

/// The parse operation: a branch for each case, and the error for the rest.
pub open spec fn from_str_tokens(g: GeneratedEnumView) -> Seq<Seq<char>> {
    texts(FROM_STR_HEAD@) + seq![g.name] + texts(FROM_STR_BODY@) + parse_arms(g.cases) + texts(
        FROM_STR_TAIL@,
    )
}

/// The serialize operation: a branch for each case.
pub open spec fn to_string_tokens(g: GeneratedEnumView) -> Seq<Seq<char>> {
    texts(TO_STRING_HEAD@) + seq![g.name] + texts(TO_STRING_BODY@) + print_arms(g.cases) + texts(
        TO_STRING_TAIL@,
    )
}

/// All the tokens of a generated type, in the order in which they are written.
pub open spec fn enum_tokens(g: GeneratedEnumView) -> Seq<Seq<char>> {
    definition_tokens(g) + from_str_tokens(g) + to_string_tokens(g)
}

/// Appends an annotation block, where there is one.
fn emit_block(tokens: &mut Tokens, block: &Option<String>)
    ensures
        tokens_text(*final(tokens)) == joined_all(
            tokens_text(*old(tokens)),
            block_tokens(block_text(*block)),
        ),
{
    match block {
        Some(b) => {
            append_token(tokens, b.as_str());
            proof {
                lemma_joined_all_one(tokens_text(*old(tokens)), b@);
            }
        },
        None => {},
    }
}

/// Appends the declaration of one case.
fn emit_case(tokens: &mut Tokens, m: &ValueMapping)
    ensures
        tokens_text(*final(tokens)) == joined_all(tokens_text(*old(tokens)), case_tokens(m@)),
{
    let ghost start = tokens_text(*tokens);
    append_tokens(tokens, &RENAME_HEAD);
    let ghost done = texts(RENAME_HEAD@);
    append_literal(tokens, m.wire_value.as_str());
    proof {
        lemma_push(start, done, str_literal(m@.wire_value));
        done = done + seq![str_literal(m@.wire_value)];
    }
    append_tokens(tokens, &RENAME_TAIL);
    proof {
        lemma_joined_all_concat(start, done, texts(RENAME_TAIL@));
        done = done + texts(RENAME_TAIL@);
    }
    append_ident(tokens, m.variant_name.as_str());
    proof {
        lemma_push(start, done, m@.variant_name);
    }
}

/// Appends the declarations of the cases, with a comma between two of them.
fn emit_cases(tokens: &mut Tokens, cases: &Vec<ValueMapping>)
    ensures
        tokens_text(*final(tokens)) == joined_all(
            tokens_text(*old(tokens)),
            case_list(mappings(cases@)),
        ),
{
    let ghost start = tokens_text(*tokens);
    let ghost all = mappings(cases@);
    let mut i: usize = 0;
    while i < cases.len()
        invariant
            i <= cases@.len(),
            all == mappings(cases@),
            tokens_text(*tokens) == joined_all(start, case_list(all.take(i as int))),
        decreases cases@.len() - i,
    {
        let ghost done = case_list(all.take(i as int));
        let ghost next = all.take(i + 1);
        proof {
            assert(next.drop_last() =~= all.take(i as int));
            assert(next.last() == cases@[i as int]@);
        }
        if i > 0 {
            append_token(tokens, ",");
            proof {
                lemma_push(start, done, ","@);
            }
            emit_case(tokens, &cases[i]);
            proof {
                lemma_joined_all_concat(start, done + seq![","@], case_tokens(next.last()));
            }
        } else {
            emit_case(tokens, &cases[i]);
            proof {
                assert(next[0] == next.last());
            }
        }
        i = i + 1;
    }
    proof {
        assert(all.take(i as int) =~= all);
    }
}

/// Appends the branch that parses the wire value of one case.
fn emit_parse_arm(tokens: &mut Tokens, m: &ValueMapping)
    ensures
        tokens_text(*final(tokens)) == joined_all(tokens_text(*old(tokens)), parse_arm(m@)),
{
    let ghost start = tokens_text(*tokens);
    append_literal(tokens, m.wire_value.as_str());
    let ghost done = seq![str_literal(m@.wire_value)];
    proof {
        lemma_joined_all_one(start, str_literal(m@.wire_value));
    }
    append_tokens(tokens, &PARSE_ARM_HEAD);
    proof {
        lemma_joined_all_concat(start, done, texts(PARSE_ARM_HEAD@));
        done = done + texts(PARSE_ARM_HEAD@);
    }
    append_ident(tokens, m.variant_name.as_str());
    proof {
        lemma_push(start, done, m@.variant_name);
        done = done + seq![m@.variant_name];
    }
    append_tokens(tokens, &PARSE_ARM_TAIL);
    proof {
        lemma_joined_all_concat(start, done, texts(PARSE_ARM_TAIL@));
    }
}

/// Appends the branches that parse, in the order of the cases.
fn emit_parse_arms(tokens: &mut Tokens, cases: &Vec<ValueMapping>)
    ensures
        tokens_text(*final(tokens)) == joined_all(
            tokens_text(*old(tokens)),
            parse_arms(mappings(cases@)),
        ),
{
    let ghost start = tokens_text(*tokens);
    let ghost all = mappings(cases@);
    let mut i: usize = 0;
    while i < cases.len()
        invariant
            i <= cases@.len(),
            all == mappings(cases@),
            tokens_text(*tokens) == joined_all(start, parse_arms(all.take(i as int))),
        decreases cases@.len() - i,
    {
        emit_parse_arm(tokens, &cases[i]);
        proof {
            let next = all.take(i + 1);
            assert(next.drop_last() =~= all.take(i as int));
            assert(next.last() == cases@[i as int]@);
            lemma_joined_all_concat(start, parse_arms(all.take(i as int)), parse_arm(next.last()));
        }
        i = i + 1;
    }
    proof {
        assert(all.take(i as int) =~= all);
    }
}

/// Appends the branch that serializes one case.
fn emit_print_arm(tokens: &mut Tokens, m: &ValueMapping)
    ensures
        tokens_text(*final(tokens)) == joined_all(tokens_text(*old(tokens)), print_arm(m@)),
{
    let ghost start = tokens_text(*tokens);
    append_tokens(tokens, &PRINT_ARM_HEAD);
    let ghost done = texts(PRINT_ARM_HEAD@);
    append_ident(tokens, m.variant_name.as_str());
    proof {
        lemma_push(start, done, m@.variant_name);
        done = done + seq![m@.variant_name];
    }
    append_token(tokens, "=>");
    proof {
        lemma_push(start, done, "=>"@);
        done = done + seq!["=>"@];
    }
    append_literal(tokens, m.wire_value.as_str());
    proof {
        lemma_push(start, done, str_literal(m@.wire_value));
        done = done + seq![str_literal(m@.wire_value)];
    }
    append_tokens(tokens, &PRINT_ARM_TAIL);
    proof {
        lemma_joined_all_concat(start, done, texts(PRINT_ARM_TAIL@));
        assert(done + texts(PRINT_ARM_TAIL@) =~= print_arm(m@));
    }
}

/// Appends the branches that serialize, in the order of the cases.
fn emit_print_arms(tokens: &mut Tokens, cases: &Vec<ValueMapping>)
    ensures
        tokens_text(*final(tokens)) == joined_all(
            tokens_text(*old(tokens)),
            print_arms(mappings(cases@)),
        ),
{
    let ghost start = tokens_text(*tokens);
    let ghost all = mappings(cases@);
    let mut i: usize = 0;
    while i < cases.len()
        invariant
            i <= cases@.len(),
            all == mappings(cases@),
            tokens_text(*tokens) == joined_all(start, print_arms(all.take(i as int))),
        decreases cases@.len() - i,
    {
        emit_print_arm(tokens, &cases[i]);
        proof {
            let next = all.take(i + 1);
            assert(next.drop_last() =~= all.take(i as int));
            assert(next.last() == cases@[i as int]@);
            lemma_joined_all_concat(start, print_arms(all.take(i as int)), print_arm(next.last()));
        }
        i = i + 1;
    }
    proof {
        assert(all.take(i as int) =~= all);
    }
}

/// Appends the definition of the type.
fn emit_definition(tokens: &mut Tokens, g: &GeneratedEnum)
    ensures
        tokens_text(*final(tokens)) == joined_all(tokens_text(*old(tokens)), definition_tokens(g@)),
{
    let ghost start = tokens_text(*tokens);
    emit_block(tokens, &g.doc);
    let ghost done = block_tokens(g@.doc);
    emit_block(tokens, &g.cfg_doc);
    proof {
        lemma_joined_all_concat(start, done, block_tokens(g@.cfg_doc));
        done = done + block_tokens(g@.cfg_doc);
    }
    emit_block(tokens, &g.cfg_attr);
    proof {
        lemma_joined_all_concat(start, done, block_tokens(g@.cfg_attr));
        done = done + block_tokens(g@.cfg_attr);
    }
    append_tokens(tokens, &DERIVES);
    proof {
        lemma_joined_all_concat(start, done, texts(DERIVES@));
        done = done + texts(DERIVES@);
    }
    append_tokens(tokens, &ENUM_HEAD);
    proof {
        lemma_joined_all_concat(start, done, texts(ENUM_HEAD@));
        done = done + texts(ENUM_HEAD@);
    }
    append_ident(tokens, g.name.as_str());
    proof {
        lemma_push(start, done, g@.name);
        done = done + seq![g@.name];
    }
    append_token(tokens, "{");
    proof {
        lemma_push(start, done, "{"@);
        done = done + seq!["{"@];
    }
    emit_cases(tokens, &g.cases);
    proof {
        lemma_joined_all_concat(start, done, case_list(g@.cases));
        done = done + case_list(g@.cases);
    }
    append_token(tokens, "}");
    proof {
        lemma_push(start, done, "}"@);
        assert(done + seq!["}"@] =~= definition_tokens(g@));
    }
}

/// Appends the parse operation.
fn emit_from_str(tokens: &mut Tokens, g: &GeneratedEnum)
    ensures
        tokens_text(*final(tokens)) == joined_all(tokens_text(*old(tokens)), from_str_tokens(g@)),
{
    let ghost start = tokens_text(*tokens);
    append_tokens(tokens, &FROM_STR_HEAD);
    let ghost done = texts(FROM_STR_HEAD@);
    append_ident(tokens, g.name.as_str());
    proof {
        lemma_push(start, done, g@.name);
        done = done + seq![g@.name];
    }
    append_tokens(tokens, &FROM_STR_BODY);
    proof {
        lemma_joined_all_concat(start, done, texts(FROM_STR_BODY@));
        done = done + texts(FROM_STR_BODY@);
    }
    emit_parse_arms(tokens, &g.cases);
    proof {
        lemma_joined_all_concat(start, done, parse_arms(g@.cases));
        done = done + parse_arms(g@.cases);
    }
    append_tokens(tokens, &FROM_STR_TAIL);
    proof {
        lemma_joined_all_concat(start, done, texts(FROM_STR_TAIL@));
    }
}

/// Appends the serialize operation.
fn emit_to_string(tokens: &mut Tokens, g: &GeneratedEnum)
    ensures
        tokens_text(*final(tokens)) == joined_all(tokens_text(*old(tokens)), to_string_tokens(g@)),
{
    let ghost start = tokens_text(*tokens);
    append_tokens(tokens, &TO_STRING_HEAD);
    let ghost done = texts(TO_STRING_HEAD@);
    append_ident(tokens, g.name.as_str());
    proof {
        lemma_push(start, done, g@.name);
        done = done + seq![g@.name];
    }
    append_tokens(tokens, &TO_STRING_BODY);
    proof {
        lemma_joined_all_concat(start, done, texts(TO_STRING_BODY@));
        done = done + texts(TO_STRING_BODY@);
    }
    emit_print_arms(tokens, &g.cases);
    proof {
        lemma_joined_all_concat(start, done, print_arms(g@.cases));
        done = done + print_arms(g@.cases);
    }
    append_tokens(tokens, &TO_STRING_TAIL);
    proof {
        lemma_joined_all_concat(start, done, texts(TO_STRING_TAIL@));
    }
}

/// Appends the source of a generated type: its definition, its parse
/// operation and its serialize operation.
pub fn emit_enum(tokens: &mut Tokens, g: &GeneratedEnum)
    ensures
        tokens_text(*final(tokens)) == joined_all(tokens_text(*old(tokens)), enum_tokens(g@)),
{
    let ghost start = tokens_text(*tokens);
    emit_definition(tokens, g);
    emit_from_str(tokens, g);
    proof {
        lemma_joined_all_concat(start, definition_tokens(g@), from_str_tokens(g@));
    }
    emit_to_string(tokens, g);
    proof {
        lemma_joined_all_concat(
            start,
            definition_tokens(g@) + from_str_tokens(g@),
            to_string_tokens(g@),
        );
    }
}

/// Appends the source of the type that an enum description stands for.
pub fn generate_param(tokens: &mut Tokens, e: &ApiEnum)
    ensures
        tokens_text(*final(tokens)) == joined_all(
            tokens_text(*old(tokens)),
            enum_tokens(generated(e@)),
        ),
{
    let g = generate_enum(e);
    emit_enum(tokens, &g);
}

/// The tokens of the types of a list of enums, one type after the other.
pub open spec fn api_tokens(enums: Seq<ApiEnumView>) -> Seq<Seq<char>>
    decreases enums.len(),
{
    if enums.len() == 0 {
        Seq::empty()
    } else {
        api_tokens(enums.drop_last()) + enum_tokens(generated(enums.last()))
    }
}

/// The source text generated for an API description.
pub open spec fn generated_source(api: ApiView) -> Seq<char> {
    joined_all(Seq::empty(), api_tokens(api.enums))
}

/// Generates the source of the types of all the enums of an API description,
/// in the order in which the enums are declared.
pub fn generate(api: &Api) -> (generated: String)
    ensures
        generated@ == generated_source(api@),
{
    let mut tokens = Tokens::new();
    let ghost all = api@.enums;
    let mut i: usize = 0;
    while i < api.enums.len()
        invariant
            i <= api.enums@.len(),
            all == api@.enums,
            tokens_text(tokens) == joined_all(Seq::empty(), api_tokens(all.take(i as int))),
        decreases api.enums@.len() - i,
    {
        generate_param(&mut tokens, &api.enums[i]);
        proof {
            let next = all.take(i + 1);
            assert(next.drop_last() =~= all.take(i as int));
            assert(next.last() == api.enums@[i as int]@);
            lemma_joined_all_concat(
                Seq::empty(),
                api_tokens(all.take(i as int)),
                enum_tokens(generated(next.last())),
            );
        }
        i = i + 1;
    }
    proof {
        assert(all.take(i as int) =~= all);
    }
    tokens.as_str().to_owned()
}

/// Generation depends on nothing but the description: two descriptions that
/// read the same give the same tokens for each enum and the same source text.
pub proof fn law_generation_is_determined(a: Api, b: Api)
    requires
        a@ == b@,
    ensures
        generated_source(a@) == generated_source(b@),
        forall|i: int|
            0 <= i < a@.enums.len() ==> enum_tokens(generated(#[trigger] a@.enums[i]))
                == enum_tokens(generated(b@.enums[i])),
{
}

} // verus!
