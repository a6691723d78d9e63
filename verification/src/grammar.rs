//! Decoding under a grammar: tool calls that are valid JSON of the right shape.
//!
//! The grammar itself is matched by the `llguidance` crate. Here is what the decode loop does with
//! it: which schema a request's tools give, and which scores are ruled out at each step. Scores are
//! floating-point numbers, held as their bits.
use vstd::prelude::*;

use crate::json::{to_value, Json};
use crate::json::{json_wf, lemma_member_from, member, value_json, JsonV, MemberV};
use crate::trie::padded_fits;
use crate::trie::{padded, texts, trie_fits};

verus! {

/// Why a request's tools give no schema.
#[derive(Clone, Copy, Debug, PartialEq, Eq, Structural)]
pub enum ToolsError {
    /// The tools are no array.
    NotArray,
    /// A tool has no function.
    MissingFunction,
    /// A tool's function has no name.
    MissingName,
}

/// An object with these members.
pub open spec fn object(members: Seq<MemberV>) -> JsonV {
    JsonV::Object(members)
}

/// A member.
pub open spec fn named(name: Seq<char>, value: JsonV) -> MemberV {
    MemberV { name, value }
}

/// The parameter schema of a tool that gives none.
pub open spec fn any_object() -> JsonV {
    object(seq![named("type"@, JsonV::Str("object"@))])
}

/// The schema of a call of the tool `name` with parameters `params`: an object with exactly these
/// two members.
pub open spec fn tool_call(name: Seq<char>, params: JsonV) -> JsonV {
    object(
        seq![
            named("type"@, JsonV::Str("object"@)),
            named(
                "properties"@,
                object(
                    seq![
                        named("name"@, object(seq![named("const"@, JsonV::Str(name))])),
                        named("arguments"@, params),
                    ],
                ),
            ),
            named(
                "required"@,
                JsonV::Array(seq![JsonV::Str("name"@), JsonV::Str("arguments"@)]),
            ),
            named("additionalProperties"@, JsonV::Bool(false)),
        ],
    )
}

/// The parameter schema of a tool's function.
pub open spec fn params_of(function: JsonV) -> JsonV {
    match member(function, "parameters"@) {
        Some(p) => p,
        None => any_object(),
    }
}

/// The schema of a call of the tool `tool`.
pub open spec fn tool_schema(tool: JsonV) -> Result<JsonV, ToolsError> {
    match member(tool, "function"@) {
        None => Err(ToolsError::MissingFunction),
        Some(f) => match member(f, "name"@) {
            Some(JsonV::Str(name)) => Ok(tool_call(name, params_of(f))),
            _ => Err(ToolsError::MissingName),
        },
    }
}

/// The schemas of calls of the first `n` tools; the first tool without one decides.
pub open spec fn tool_schemas(tools: Seq<JsonV>, n: nat) -> Result<Seq<JsonV>, ToolsError>
    decreases n,
{
    if n == 0 {
        Ok(Seq::empty())
    } else {
        match tool_schemas(tools, (n - 1) as nat) {
            Err(e) => Err(e),
            Ok(before) => match tool_schema(tools[n - 1]) {
                Err(e) => Err(e),
                Ok(s) => Ok(before.push(s)),
            },
        }
    }
}

/// The schema of one call of any of the tools.
pub open spec fn call_schema(tools: JsonV) -> Result<JsonV, ToolsError> {
    match tools {
        JsonV::Array(items) => match tool_schemas(items, items.len()) {
            Ok(alts) => Ok(object(seq![named("anyOf"@, JsonV::Array(alts))])),
            Err(e) => Err(e),
        },
        _ => Err(ToolsError::NotArray),
    }
}

/// A request's schema has one alternative for each tool, in their order: the call of that tool.
/// Where a tool gives none, there is no schema.
pub proof fn law_one_alternative_per_tool(tools: Seq<JsonV>, n: nat)
    requires
        n <= tools.len(),
    ensures
        match tool_schemas(tools, n) {
            Ok(alts) => alts.len() == n && forall|i: int|
                0 <= i < n ==> tool_schema(#[trigger] tools[i]) == Ok::<JsonV, ToolsError>(alts[i]),
            Err(e) => exists|i: int|
                0 <= i < n && tool_schema(#[trigger] tools[i]) == Err::<JsonV, ToolsError>(e)
                    && forall|k: int| 0 <= k < i ==> tool_schema(#[trigger] tools[k]) is Ok,
        },
    decreases n,
{
    if n > 0 {
        law_one_alternative_per_tool(tools, (n - 1) as nat);
        match tool_schemas(tools, (n - 1) as nat) {
            Ok(before) => {
                if tool_schema(tools[n - 1]) is Err {
                    assert forall|k: int| 0 <= k < n - 1 implies tool_schema(
                        #[trigger] tools[k],
                    ) is Ok by {
                        assert(tool_schema(tools[k]) == Ok::<JsonV, ToolsError>(before[k]));
                    }
                }
            },
            Err(e) => {},
        }
    }
}

/// Every name that a call of the tool may use is required, and no other is allowed.
pub proof fn law_tool_call_is_closed(name: Seq<char>, params: JsonV)
    ensures
        member(tool_call(name, params), "additionalProperties"@) == Some(JsonV::Bool(false)),
        member(tool_call(name, params), "required"@) == Some(
            JsonV::Array(seq![JsonV::Str("name"@), JsonV::Str("arguments"@)]),
        ),
        member(member(tool_call(name, params), "properties"@)->0, "arguments"@) == Some(params),
        member(
            member(member(tool_call(name, params), "properties"@)->0, "name"@)->0,
            "const"@,
        ) == Some(JsonV::Str(name)),
{
    lemma_literals();
    reveal_with_fuel(crate::json::member_from, 5);
}

/// Whether `schema` makes its text a call of the function `name` with arguments of the schema `arguments`:
/// an object of exactly two members, both required, the one the name as it is and the other the arguments.
pub open spec fn is_call_of(schema: JsonV, name: Seq<char>, arguments: JsonV) -> bool {
    &&& schema matches JsonV::Object(m) && m.len() == 4
    &&& member(schema, "type"@) == Some(JsonV::Str("object"@))
    &&& member(schema, "additionalProperties"@) == Some(JsonV::Bool(false))
    &&& member(schema, "required"@) == Some(
        JsonV::Array(seq![JsonV::Str("name"@), JsonV::Str("arguments"@)]),
    )
    &&& member(schema, "properties"@) matches Some(p) && {
        &&& p matches JsonV::Object(m) && m.len() == 2
        &&& member(p, "name"@) == Some(
            JsonV::Object(seq![MemberV { name: "const"@, value: JsonV::Str(name) }]),
        )
        &&& member(p, "arguments"@) == Some(arguments)
    }
}

/// What a tool's own tree gives. Its function's name is the only name that a call may use, and the
/// arguments have the schema that stands under `parameters` in the function, whatever it holds; without
/// one they are any object. A tool without a function, or whose function has no text for its name, gives
/// no schema.
pub proof fn law_tool_schema(tool: JsonV)
    ensures
        match member(tool, "function"@) {
            None => tool_schema(tool) == Err::<JsonV, ToolsError>(ToolsError::MissingFunction),
            Some(f) => match member(f, "name"@) {
                Some(JsonV::Str(name)) => {
                    &&& tool_schema(tool) matches Ok(s)
                    &&& match member(f, "parameters"@) {
                        Some(p) => is_call_of(s, name, p),
                        None => is_call_of(
                            s,
                            name,
                            JsonV::Object(
                                seq![MemberV { name: "type"@, value: JsonV::Str("object"@) }],
                            ),
                        ),
                    }
                },
                _ => tool_schema(tool) == Err::<JsonV, ToolsError>(ToolsError::MissingName),
            },
        },
{
    lemma_literals();
    reveal_with_fuel(crate::json::member_from, 5);
}

/// A request's tools are an array, and its schema is a choice between one call for each of them, in their
/// order, and nothing else: each names its tool and takes that tool's own parameters.
pub proof fn law_call_schema(tools: JsonV, i: int)
    ensures
        !(tools is Array) ==> call_schema(tools) == Err::<JsonV, ToolsError>(ToolsError::NotArray),
        tools matches JsonV::Array(items) ==> match call_schema(tools) {
            Ok(s) => {
                &&& s matches JsonV::Object(m) && m.len() == 1 && m[0].name == "anyOf"@ && (
                m[0].value matches JsonV::Array(alts) && alts.len() == items.len() && (0 <= i
                    < items.len() ==> tool_schema(items[i]) == Ok::<JsonV, ToolsError>(alts[i])))
            },
            Err(e) => exists|k: int|
                0 <= k < items.len() && tool_schema(#[trigger] items[k]) == Err::<
                    JsonV,
                    ToolsError,
                >(e) && forall|j: int| 0 <= j < k ==> tool_schema(#[trigger] items[j]) is Ok,
        },
{
    if let JsonV::Array(items) = tools {
        law_one_alternative_per_tool(items, items.len());
    }
}

/// The member names of a call's schema differ.
proof fn lemma_literals()
    ensures
        "type"@ != "properties"@,
        "type"@ != "required"@,
        "type"@ != "additionalProperties"@,
        "properties"@ != "required"@,
        "properties"@ != "additionalProperties"@,
        "required"@ != "additionalProperties"@,
        "name"@ != "arguments"@,
{
    reveal_strlit("type");
    reveal_strlit("properties");
    reveal_strlit("required");
    reveal_strlit("additionalProperties");
    reveal_strlit("name");
    reveal_strlit("arguments");
    assert("type"@.len() == 4);
    assert("properties"@.len() == 10);
    assert("required"@.len() == 8);
    assert("additionalProperties"@.len() == 20);
    assert("name"@.len() == 4);
    assert("arguments"@.len() == 9);
}

/// A call's schema is well formed where the parameters are.
proof fn lemma_tool_call_wf(name: Seq<char>, params: JsonV)
    requires
        json_wf(params),
    ensures
        json_wf(tool_call(name, params)),
{
    lemma_literals();
    reveal_with_fuel(json_wf, 4);
    let constant = object(seq![named("const"@, JsonV::Str(name))]);
    assert(json_wf(constant));
    let properties = object(seq![named("name"@, constant), named("arguments"@, params)]);
    assert(json_wf(properties));
    let required = JsonV::Array(seq![JsonV::Str("name"@), JsonV::Str("arguments"@)]);
    assert(json_wf(required));
}

proof fn lemma_any_object_wf()
    ensures
        json_wf(any_object()),
{
    reveal_with_fuel(json_wf, 2);
}

/// A member of a well-formed tree is well formed.
proof fn lemma_member_wf(v: JsonV, key: Seq<char>)
    requires
        json_wf(v),
    ensures
        member(v, key) matches Some(m) ==> json_wf(m),
{
    if let JsonV::Object(members) = v {
        lemma_member_from(members, key, 0);
    }
}

fn text(s: &str) -> (r: Json)
    ensures
        r@ == JsonV::Str(s@),
{
    Json::Str(s.to_owned())
}

/// An object with one member.
fn object1(name: &str, value: Json) -> (r: Json)
    ensures
        r@ == object(seq![named(name@, value@)]),
{
    let mut v: Vec<(String, Json)> = Vec::new();
    v.push((name.to_owned(), value));
    let r = Json::Object(v);
    assert(r@->Object_0 =~= seq![named(name@, value@)]);
    r
}

/// The schema of a call of the tool `name` with parameters `params`.
fn tool_call_json(name: &str, params: Json) -> (r: Json)
    ensures
        r@ == tool_call(name@, params@),
{
    let mut properties: Vec<(String, Json)> = Vec::new();
    properties.push(("name".to_owned(), object1("const", text(name))));
    properties.push(("arguments".to_owned(), params));
    let properties = Json::Object(properties);
    assert(properties@->Object_0 =~= seq![
        named("name"@, object(seq![named("const"@, JsonV::Str(name@))])),
        named("arguments"@, params@),
    ]);
    let ghost p = properties@;
    let mut required: Vec<Json> = Vec::new();
    required.push(text("name"));
    required.push(text("arguments"));
    let required = Json::Array(required);
    assert(required@->Array_0 =~= seq![JsonV::Str("name"@), JsonV::Str("arguments"@)]);
    let ghost q = required@;
    let mut v: Vec<(String, Json)> = Vec::new();
    v.push(("type".to_owned(), text("object")));
    v.push(("properties".to_owned(), properties));
    v.push(("required".to_owned(), required));
    let closed_to_others = Json::Bool(false);
    assert(closed_to_others@ == JsonV::Bool(false));
    v.push(("additionalProperties".to_owned(), closed_to_others));
    let r = Json::Object(v);
    assert(r@->Object_0 =~= seq![
        named("type"@, JsonV::Str("object"@)),
        named("properties"@, p),
        named("required"@, q),
        named("additionalProperties"@, JsonV::Bool(false)),
    ]);
    r
}

/// The schema of a call of the tool `tool`.
fn tool_schema_json(tool: &Json) -> (r: Result<Json, ToolsError>)
    requires
        json_wf(tool@),
    ensures
        match r {
            Ok(j) => tool_schema(tool@) == Ok::<JsonV, ToolsError>(j@) && json_wf(j@),
            Err(e) => tool_schema(tool@) == Err::<JsonV, ToolsError>(e),
        },
{
    proof {
        lemma_member_wf(tool@, "function"@);
    }
    let f = match tool.get("function") {
        Some(f) => f,
        None => {
            return Err(ToolsError::MissingFunction);
        },
    };
    let named_by = match f.get("name") {
        Some(n) => n,
        None => {
            return Err(ToolsError::MissingName);
        },
    };
    let name = match named_by.as_str() {
        Some(s) => s,
        None => {
            return Err(ToolsError::MissingName);
        },
    };
    proof {
        lemma_member_wf(f@, "parameters"@);
        lemma_any_object_wf();
    }
    let params = match f.get("parameters") {
        Some(p) => p.copy(),
        None => object1("type", text("object")),
    };
    proof {
        lemma_tool_call_wf(name@, params@);
    }
    Ok(tool_call_json(name, params))
}

/// The schema that constrains the body of a tool call: one object that names one of the tools and
/// gives it arguments of its parameter schema.
pub fn tool_call_schema(tools: &Json) -> (r: Result<Json, ToolsError>)
    requires
        json_wf(tools@),
    ensures
        match r {
            Ok(j) => call_schema(tools@) == Ok::<JsonV, ToolsError>(j@) && json_wf(j@),
            Err(e) => call_schema(tools@) == Err::<JsonV, ToolsError>(e),
        },
{
    let items = match tools.as_array() {
        Some(v) => v,
        None => {
            return Err(ToolsError::NotArray);
        },
    };
    let ghost all = tools@->Array_0;
    let mut alts: Vec<Json> = Vec::new();
    let ghost mut done: Seq<JsonV> = Seq::empty();
    let mut i: usize = 0;
    while i < items.len()
        invariant
            i <= items@.len(),
            json_wf(tools@),
            tools@ == JsonV::Array(all),
            all.len() == items@.len(),
            forall|k: int| 0 <= k < all.len() ==> #[trigger] all[k] == items@[k]@,
            tool_schemas(all, i as nat) == Ok::<Seq<JsonV>, ToolsError>(done),
            done.len() == i,
            alts@.len() == i,
            forall|k: int|
                0 <= k < i ==> (#[trigger] alts@[k])@ == done[k] && json_wf(alts@[k]@),
        decreases items.len() - i,
    {
        assert(all[i as int] == items@[i as int]@);
        match tool_schema_json(&items[i]) {
            Ok(j) => {
                proof {
                    done = done.push(j@);
                }
                alts.push(j);
            },
            Err(e) => {
                proof {
                    lemma_schemas_stopped(all, (i + 1) as nat, all.len());
                }
                return Err(e);
            },
        }
        i += 1;
    }
    let alts = Json::Array(alts);
    proof {
        assert(alts@->Array_0 =~= done);
        assert(json_wf(alts@));
    }
    let r = object1("anyOf", alts);
    proof {
        reveal_with_fuel(json_wf, 2);
        assert(r@->Object_0.len() == 1);
        assert(json_wf(r@));
    }
    Ok(r)
}

/// Once a tool gives no schema, more tools change nothing.
proof fn lemma_schemas_stopped(tools: Seq<JsonV>, k: nat, n: nat)
    requires
        k <= n,
        tool_schemas(tools, k) is Err,
    ensures
        tool_schemas(tools, n) == tool_schemas(tools, k),
    decreases n,
{
    if k < n {
        lemma_schemas_stopped(tools, k, (n - 1) as nat);
    }
}

/// The type `llguidance::api::TopLevelGrammar`.
#[verifier::external_type_specification]
#[verifier::external_body]
pub struct ExTopLevelGrammar(llguidance::api::TopLevelGrammar);

/// The grammar that `llguidance::api::TopLevelGrammar::from_json_schema` makes of a schema.
pub uninterp spec fn schema_grammar(schema: JsonV) -> llguidance::api::TopLevelGrammar;

/// `TopLevelGrammar::from_json_schema` wraps a schema as a grammar, without looking at it: the
/// result follows from the tree alone.
pub assume_specification[ llguidance::api::TopLevelGrammar::from_json_schema ](
    json_schema: serde_json::Value,
) -> (r: llguidance::api::TopLevelGrammar)
    ensures
        r == schema_grammar(value_json(json_schema)),
;

/// The grammar of a forced tool call: the body must be one valid call of one of the request's
/// tools. The caller puts the opening marker before it.
pub fn forced_tool_call_grammar(tools: &Json) -> (r: Result<
    llguidance::api::TopLevelGrammar,
    ToolsError,
>)
    requires
        json_wf(tools@),
    ensures
        r == match call_schema(tools@) {
            Ok(s) => Ok::<llguidance::api::TopLevelGrammar, ToolsError>(schema_grammar(s)),
            Err(e) => Err(e),
        },
{
    match tool_call_schema(tools) {
        Ok(schema) => Ok(
            llguidance::api::TopLevelGrammar::from_json_schema(to_value(&schema)),
        ),
        Err(e) => Err(e),
    }
}

/// The type `toktrie_hf_tokenizers::ByteTokenizer`.
#[verifier::external_type_specification]
#[verifier::external_body]
pub struct ExByteTokenizer(toktrie_hf_tokenizers::ByteTokenizer);

/// The type `toktrie_hf_tokenizers::ByteTokenizerEnv`.
#[verifier::external_type_specification]
#[verifier::external_body]
pub struct ExByteTokenizerEnv(toktrie_hf_tokenizers::ByteTokenizerEnv);

/// The type `llguidance::ParserFactory`.
#[verifier::external_type_specification]
#[verifier::external_body]
pub struct ExParserFactory(llguidance::ParserFactory);

/// The type `llguidance::Matcher`.
#[verifier::external_type_specification]
#[verifier::external_body]
pub struct ExMatcher(llguidance::Matcher);

/// The type `llguidance::toktrie::SimpleVob`, a set of tokens.
#[verifier::external_type_specification]
#[verifier::external_body]
pub struct ExSimpleVob(llguidance::toktrie::SimpleVob);

/// The bytes of a tokenizer's tokens, in the order of their numbers.
pub uninterp spec fn tokenizer_bytes(bt: toktrie_hf_tokenizers::ByteTokenizer) -> Seq<Seq<u8>>;

/// The tokens that end a text.
pub uninterp spec fn tokenizer_eos(bt: toktrie_hf_tokenizers::ByteTokenizer) -> Seq<u32>;

/// Whether an environment is as `ByteTokenizerEnv::new` made it.
pub uninterp spec fn env_built(env: toktrie_hf_tokenizers::ByteTokenizerEnv) -> bool;

/// Number of tokens of an environment: `tok_trie().vocab_size()`.
pub uninterp spec fn env_vocab(env: toktrie_hf_tokenizers::ByteTokenizerEnv) -> nat;

/// The words of an environment's trie, in the order of their numbers.
pub uninterp spec fn env_words(env: toktrie_hf_tokenizers::ByteTokenizerEnv) -> Seq<Seq<u8>>;

/// The tokens that end a text: `tok_trie().eos_tokens()`.
pub uninterp spec fn env_eos(env: toktrie_hf_tokenizers::ByteTokenizerEnv) -> Seq<u32>;

/// Whether `ParserFactory::new_simple` succeeds on a tokenizer.
pub uninterp spec fn factory_made(env: toktrie_hf_tokenizers::ByteTokenizerEnv) -> bool;

/// Whether a factory was made by `ParserFactory::new_simple`, and its limits are those it was made with.
pub uninterp spec fn factory_simple(f: llguidance::ParserFactory) -> bool;

/// The tokenizer that a factory was made with.
pub uninterp spec fn factory_env(f: llguidance::ParserFactory) -> toktrie_hf_tokenizers::ByteTokenizerEnv;

/// Whether `ParserFactory::create_parser` compiles a grammar, on a factory that `new_simple` made of a
/// tokenizer.
pub uninterp spec fn grammar_compiles(
    env: toktrie_hf_tokenizers::ByteTokenizerEnv,
    grammar: llguidance::api::TopLevelGrammar,
) -> bool;

/// The tokenizer that a matcher was made with.
pub uninterp spec fn matcher_env(m: llguidance::Matcher) -> toktrie_hf_tokenizers::ByteTokenizerEnv;

/// The grammar that a matcher was made with.
pub uninterp spec fn matcher_grammar(m: llguidance::Matcher) -> llguidance::api::TopLevelGrammar;

/// The tokens that a matcher has taken since it was made, in their order.
pub uninterp spec fn matcher_taken(m: llguidance::Matcher) -> Seq<u32>;

/// Whether a matcher takes a run of tokens next.
pub uninterp spec fn matcher_takes(m: llguidance::Matcher, tokens: Seq<u32>) -> bool;

/// Whether a matcher has no cancellation handle, so that no other thread can stop it.
pub uninterp spec fn matcher_plain(m: llguidance::Matcher) -> bool;

/// Whether a matcher is in a stop state or has failed.
pub uninterp spec fn matcher_stopped(m: llguidance::Matcher) -> bool;

/// Whether a matcher may answer with this mask: token `i` is allowed where entry `i` is true. There may be
/// several, since a tokenizer may draw the tokens of a forced text by chance.
pub uninterp spec fn matcher_may_allow(m: llguidance::Matcher, mask: Seq<bool>) -> bool;

/// Whether a matcher may answer with these forced tokens. There may be several such lists, since a
/// tokenizer may draw the tokens of a forced text by chance.
pub uninterp spec fn matcher_may_force(m: llguidance::Matcher, tokens: Seq<u32>) -> bool;

/// The bits of a token set, up to the end of its last word.
pub uninterp spec fn vob_bits(v: llguidance::toktrie::SimpleVob) -> Seq<bool>;

/// Whether matcher `b` has the tokenizer and the grammar of `a`, and has taken `more` since.
pub open spec fn matcher_went_on(
    a: llguidance::Matcher,
    b: llguidance::Matcher,
    more: Seq<u32>,
) -> bool {
    &&& matcher_env(b) == matcher_env(a)
    &&& matcher_grammar(b) == matcher_grammar(a)
    &&& matcher_taken(b) == matcher_taken(a) + more
}

/// `ByteTokenizer::token_bytes`: the bytes of each token.
pub assume_specification[ toktrie_hf_tokenizers::ByteTokenizer::token_bytes ](
    bt: &toktrie_hf_tokenizers::ByteTokenizer,
) -> (r: Vec<Vec<u8>>)
    ensures
        r@.len() == tokenizer_bytes(*bt).len(),
        forall|i: int| 0 <= i < r@.len() ==> (#[trigger] r@[i])@ == tokenizer_bytes(*bt)[i],
;

/// `ByteTokenizer::set_eos_tokens`: these tokens end a text from now on. It panics on an empty list and
/// on a number that is no token's.
pub assume_specification[ toktrie_hf_tokenizers::ByteTokenizer::set_eos_tokens ](
    bt: &mut toktrie_hf_tokenizers::ByteTokenizer,
    tokens: &[llguidance::toktrie::TokenId],
)
    requires
        tokens@.len() > 0,
        forall|i: int|
            0 <= i < tokens@.len() ==> #[trigger] tokens@[i] < tokenizer_bytes(*old(bt)).len(),
    ensures
        tokenizer_bytes(*final(bt)) == tokenizer_bytes(*old(bt)),
        tokenizer_eos(*final(bt)) == tokens@,
;

/// Calls `ByteTokenizerEnv::new` with a vocabulary size: the trie of the tokenizer's words, filled up to
/// that size, with the tokenizer's ends of text. It fails where the size is below the number of tokens,
/// and panics where the trie cannot hold the words. An error's text is left unsaid.
#[verifier::external_body]
fn new_env(bt: toktrie_hf_tokenizers::ByteTokenizer, vocab: usize) -> (r: Result<
    toktrie_hf_tokenizers::ByteTokenizerEnv,
    String,
>)
    requires
        vocab >= tokenizer_bytes(bt).len() ==> trie_fits(padded(tokenizer_bytes(bt), vocab as nat)),
    ensures
        r is Ok <==> vocab >= tokenizer_bytes(bt).len(),
        r matches Ok(e) ==> {
            &&& env_built(e)
            &&& env_vocab(e) == vocab
            &&& env_words(e) == padded(tokenizer_bytes(bt), vocab as nat)
            &&& env_eos(e) == tokenizer_eos(bt)
        },
{
    toktrie_hf_tokenizers::ByteTokenizerEnv::new(bt, Some(vocab)).map_err(|e| e.to_string())
}

/// Reads `vocab_size` of the tokenizer's token trie, which holds it in 32 bits.
#[verifier::external_body]
fn vocab_size(env: &toktrie_hf_tokenizers::ByteTokenizerEnv) -> (r: usize)
    ensures
        r == env_vocab(*env),
        r <= u32::MAX,
{
    env.tok_trie.vocab_size()
}

/// Calls `ParserFactory::new_simple` on the tokenizer. Whether it succeeds follows from the tokenizer,
/// which the factory keeps. It makes tries of parts of the words, and panics where the tokenizer's own
/// was given another size than its words have. An error's text is left unsaid.
#[verifier::external_body]
fn new_factory(env: toktrie_hf_tokenizers::ByteTokenizerEnv) -> (r: Result<
    llguidance::ParserFactory,
    String,
>)
    requires
        env_built(env),
    ensures
        r is Ok <==> factory_made(env),
        r matches Ok(f) ==> factory_simple(f) && factory_env(f) == env,
{
    llguidance::ParserFactory::new_simple(&env.to_env()).map_err(|e| e.to_string())
}

/// Calls `ParserFactory::create_parser` and hands the parser to `Matcher::new`. Whether the grammar
/// compiles follows from it and from the factory's tokenizer. The matcher is one for that grammar over
/// that tokenizer, has taken no token, and has no cancellation handle, since none was asked for. An
/// error's text is left unsaid.
#[verifier::external_body]
fn new_matcher(
    factory: &llguidance::ParserFactory,
    grammar: llguidance::api::TopLevelGrammar,
) -> (r: Result<llguidance::Matcher, String>)
    requires
        factory_simple(*factory),
    ensures
        r is Ok <==> grammar_compiles(factory_env(*factory), grammar),
        r matches Ok(m) ==> {
            &&& matcher_env(m) == factory_env(*factory)
            &&& matcher_grammar(m) == grammar
            &&& matcher_taken(m) == Seq::<u32>::empty()
            &&& matcher_plain(m)
        },
{
    let parser = factory.create_parser(grammar).map_err(|e| e.to_string())?;
    Ok(llguidance::Matcher::new(Ok(parser)))
}

/// `Matcher::is_stopped`: what a matcher without a cancellation handle answers follows from its
/// state.
pub assume_specification[ llguidance::Matcher::is_stopped ](m: &llguidance::Matcher) -> (r: bool)
    requires
        matcher_plain(*m),
    ensures
        r == matcher_stopped(*m),
;

/// Calls `Matcher::compute_mask`: a mask over at least the whole vocabulary, in which something is
/// allowed, or an error. A matcher that is stopped gives an error, and one that gives an error is stopped
/// from then on. A mask takes no token. It is one of those that the matcher may answer with: where the
/// grammar forces some text, the mask is the first token that the tokenizer makes of it, and a tokenizer
/// may draw its tokens by chance. When else an error comes, and its text, is left unsaid.
#[verifier::external_body]
fn compute_mask(m: &mut llguidance::Matcher) -> (r: Result<llguidance::toktrie::SimpleVob, String>)
    requires
        matcher_plain(*old(m)),
    ensures
        matcher_plain(*final(m)),
        match r {
            Ok(v) => {
                &&& vob_bits(v).len() >= env_vocab(matcher_env(*old(m)))
                &&& vob_bits(v).contains(true)
                &&& matcher_may_allow(*old(m), vob_bits(v))
                &&& !matcher_stopped(*old(m))
                &&& !matcher_stopped(*final(m))
                &&& matcher_went_on(*old(m), *final(m), Seq::<u32>::empty())
            },
            Err(_) => matcher_stopped(*final(m)),
        },
{
    m.compute_mask().map_err(|e| e.to_string())
}

/// `Matcher::compute_ff_tokens`: the tokens that the grammar forces, one of the lists that the matcher may
/// answer with. They are not taken by it. A matcher that fails on the way is stopped from then on, and
/// one that is stopped stays so.
pub assume_specification[ llguidance::Matcher::compute_ff_tokens ](m: &mut llguidance::Matcher) -> (r:
    Vec<llguidance::toktrie::TokenId>)
    requires
        matcher_plain(*old(m)),
    ensures
        matcher_plain(*final(m)),
        matcher_may_force(*old(m), r@),
        matcher_stopped(*old(m)) ==> matcher_stopped(*final(m)),
        !matcher_stopped(*final(m)) ==> matcher_went_on(*old(m), *final(m), Seq::<u32>::empty()),
;

/// Calls `Matcher::consume_tokens`. Whether the run is taken follows from it and from the matcher's state:
/// a matcher that is stopped takes no token and stays so. Where it is, the matcher has taken these tokens
/// as well; where not, it is stopped from then on. An error's text is left unsaid.
#[verifier::external_body]
fn consume_tokens(m: &mut llguidance::Matcher, tokens: &[u32]) -> (r: Result<(), String>)
    requires
        matcher_plain(*old(m)),
    ensures
        matcher_plain(*final(m)),
        matcher_stopped(*old(m)) ==> matcher_stopped(*final(m)),
        r is Ok <==> matcher_takes(*old(m), tokens@),
        match r {
            Ok(_) => {
                &&& tokens@.len() > 0 ==> !matcher_stopped(*old(m))
                &&& matcher_went_on(*old(m), *final(m), tokens@)
            },
            Err(_) => matcher_stopped(*final(m)),
        },
{
    m.consume_tokens(tokens).map_err(|e| e.to_string())
}

/// Calls `Matcher::consume_token`: `consume_tokens` with one token.
#[verifier::external_body]
fn consume_token(m: &mut llguidance::Matcher, token: u32) -> (r: Result<(), String>)
    requires
        matcher_plain(*old(m)),
    ensures
        matcher_plain(*final(m)),
        r is Ok <==> matcher_takes(*old(m), seq![token]),
        match r {
            Ok(_) => {
                &&& !matcher_stopped(*old(m))
                &&& matcher_went_on(*old(m), *final(m), seq![token])
            },
            Err(_) => matcher_stopped(*final(m)),
        },
{
    m.consume_token(token).map_err(|e| e.to_string())
}

/// `SimpleVob::is_allowed`: bit `tok` of the set. It indexes the set's words, so the bit has to be
/// there.
pub assume_specification[ llguidance::toktrie::SimpleVob::is_allowed ](
    v: &llguidance::toktrie::SimpleVob,
    tok: llguidance::toktrie::TokenId,
) -> (r: bool)
    requires
        tok < vob_bits(*v).len(),
    ensures
        r == vob_bits(*v)[tok as int],
;

/// Why a constraint cannot be set up or has failed.
#[derive(Debug)]
pub enum ConstraintError {
    ParserFactory(String),
    CreateParser(String),
    Matcher(String),
}

/// The bits of the lowest score there is.
pub const NEG_INFINITY_BITS: u32 = 0xff80_0000;

/// The smaller of two lengths.
pub open spec fn shorter(a: nat, b: nat) -> nat {
    if a < b {
        a
    } else {
        b
    }
}

/// The smaller of two lengths is one of them, and no more than either.
pub proof fn law_shorter(a: nat, b: nat)
    ensures
        shorter(a, b) <= a,
        shorter(a, b) <= b,
        shorter(a, b) == a || shorter(a, b) == b,
{
}

/// `logits` with the score of every token that is not allowed set to the lowest. Scores beyond the
/// vocabulary stay.
pub open spec fn masked(logits: Seq<u32>, vocab: nat, allowed: Seq<bool>) -> Seq<u32> {
    Seq::new(
        logits.len(),
        |i: int|
            if i < vocab && !allowed[i] {
                NEG_INFINITY_BITS
            } else {
                logits[i]
            },
    )
}

/// Masking twice is masking once, and an allowed token keeps its score; so does what lies beyond the
/// vocabulary.
pub proof fn law_mask(logits: Seq<u32>, vocab: nat, allowed: Seq<bool>)
    ensures
        masked(masked(logits, vocab, allowed), vocab, allowed) == masked(logits, vocab, allowed),
        forall|i: int|
            0 <= i < logits.len() && i < vocab && allowed[i] ==> #[trigger] masked(
                logits,
                vocab,
                allowed,
            )[i] == logits[i],
        forall|i: int|
            0 <= i < logits.len() && i < vocab && !allowed[i] ==> #[trigger] masked(
                logits,
                vocab,
                allowed,
            )[i] == NEG_INFINITY_BITS,
        NEG_INFINITY_BITS == 0xff80_0000,
        masked(logits, vocab, allowed).len() == logits.len(),
        forall|i: int|
            0 <= i < logits.len() && i >= vocab ==> #[trigger] masked(logits, vocab, allowed)[i]
                == logits[i],
{
    assert(masked(masked(logits, vocab, allowed), vocab, allowed) =~= masked(
        logits,
        vocab,
        allowed,
    ));
}

/// Rules out the tokens that are not allowed.
pub fn mask_logits(allowed: &Vec<bool>, vocab: usize, logits: &mut Vec<u32>)
    requires
        shorter(old(logits)@.len(), vocab as nat) <= allowed@.len(),
    ensures
        final(logits)@ == masked(old(logits)@, vocab as nat, allowed@),
{
    let n: usize = if logits.len() < vocab {
        logits.len()
    } else {
        vocab
    };
    let ghost before = logits@;
    let mut i: usize = 0;
    while i < n
        invariant
            i <= n,
            n == shorter(before.len(), vocab as nat),
            n <= allowed@.len(),
            logits@.len() == before.len(),
            forall|k: int| 0 <= k < i ==> #[trigger] logits@[k] == masked(before, vocab as nat, allowed@)[k],
            forall|k: int| i <= k < before.len() ==> #[trigger] logits@[k] == before[k],
        decreases n - i,
    {
        if !allowed[i] {
            logits.set(i, NEG_INFINITY_BITS);
        }
        i += 1;
    }
    assert(logits@ =~= masked(before, vocab as nat, allowed@));
}

/// A tokenizer with the trie of its tokens.
pub struct TokEnv {
    env: toktrie_hf_tokenizers::ByteTokenizerEnv,
}

impl TokEnv {
    pub closed spec fn inner(&self) -> toktrie_hf_tokenizers::ByteTokenizerEnv {
        self.env
    }

    pub open spec fn wf(&self) -> bool {
        env_built(self.inner())
    }

    /// Number of tokens.
    pub open spec fn vocab(&self) -> nat {
        env_vocab(self.inner())
    }

    /// The tokens' bytes.
    pub open spec fn words(&self) -> Seq<Seq<u8>> {
        env_words(self.inner())
    }

    /// The tokens that end a text.
    pub open spec fn eos(&self) -> Seq<u32> {
        env_eos(self.inner())
    }
}

/// Whether an environment can be set up, or refused: the ends of text are tokens, and the trie can hold
/// the words, where there is room for them at all.
pub open spec fn tok_env_fits(words: Seq<Seq<u8>>, vocab: usize, eos_ids: Seq<u32>) -> bool {
    &&& forall|i: int| 0 <= i < eos_ids.len() ==> #[trigger] eos_ids[i] < words.len()
    &&& vocab >= words.len() ==> trie_fits(padded(words, vocab as nat))
}

/// A further end of text fits if and only if it is one of the tokens. With none marked, all that counts is
/// the trie; and where the words outnumber the vocabulary, which is then refused, that does not count either.
pub proof fn law_tok_env_fits(words: Seq<Seq<u8>>, vocab: usize, eos_ids: Seq<u32>, e: u32)
    ensures
        tok_env_fits(words, vocab, eos_ids.push(e)) <==> tok_env_fits(words, vocab, eos_ids) && e
            < words.len(),
        words.len() > vocab ==> tok_env_fits(words, vocab, Seq::empty()),
        words.len() <= vocab ==> tok_env_fits(words, vocab, Seq::empty()) == trie_fits(
            padded(words, vocab as nat),
        ),
{
    let all = eos_ids.push(e);
    let n = eos_ids.len() as int;
    assert(all[n] == e);
    assert forall|i: int| 0 <= i < n implies #[trigger] all[i] == eos_ids[i] by {}
    if tok_env_fits(words, vocab, all) {
        assert forall|i: int| 0 <= i < n implies #[trigger] eos_ids[i] < words.len() by {
            assert(all[i] < words.len());
        }
    }
}

/// Whether `r` is the environment of a tokenizer, as wide as `vocab`; none where the tokenizer has more
/// tokens.
pub open spec fn tok_env_given(
    bt: toktrie_hf_tokenizers::ByteTokenizer,
    vocab: usize,
    eos_ids: Seq<u32>,
    r: Result<TokEnv, String>,
) -> bool {
    match r {
        Ok(e) => {
            &&& vocab >= tokenizer_bytes(bt).len()
            &&& e.wf()
            &&& e.vocab() == vocab
            &&& e.words() == padded(tokenizer_bytes(bt), vocab as nat)
            &&& e.eos() == if eos_ids.len() > 0 {
                eos_ids
            } else {
                tokenizer_eos(bt)
            }
        },
        Err(_) => vocab < tokenizer_bytes(bt).len(),
    }
}

/// An environment is as wide as was asked for, its first tokens are the tokenizer's own, and the ends of
/// text are all those that were marked, or the tokenizer's own where none was. There is none if and only
/// if the tokenizer has more tokens.
pub proof fn law_tok_env(
    bt: toktrie_hf_tokenizers::ByteTokenizer,
    vocab: usize,
    eos_ids: Seq<u32>,
    r: Result<TokEnv, String>,
)
    requires
        tok_env_given(bt, vocab, eos_ids, r),
    ensures
        r is Ok <==> tokenizer_bytes(bt).len() <= vocab,
        r matches Ok(e) ==> {
            &&& e.vocab() == vocab
            &&& e.words().len() == vocab
            &&& e.words().take(tokenizer_bytes(bt).len() as int) == tokenizer_bytes(bt)
            &&& eos_ids.len() > 0 ==> e.eos() == eos_ids
            &&& eos_ids.len() == 0 ==> e.eos() == tokenizer_eos(bt)
        },
{
    if let Ok(e) = r {
        assert(e.words().take(tokenizer_bytes(bt).len() as int) =~= tokenizer_bytes(bt));
    }
}

/// The environment of a tokenizer. `vocab` is the model's logit width, so that the trie matches the
/// logits exactly; `eos_ids` mark the tokens that end a text, where there are any.
pub fn build_tok_env(
    bt: toktrie_hf_tokenizers::ByteTokenizer,
    vocab: usize,
    eos_ids: &[u32],
) -> (r: Result<TokEnv, String>)
    requires
        tok_env_fits(tokenizer_bytes(bt), vocab, eos_ids@),
    ensures
        tok_env_given(bt, vocab, eos_ids@, r),
{
    let mut bt = bt;
    if eos_ids.len() > 0 {
        bt.set_eos_tokens(eos_ids);
    }
    match new_env(bt, vocab) {
        Ok(env) => Ok(TokEnv { env }),
        Err(e) => Err(e),
    }
}

/// The environment of a tokenizer, or nothing where an end of text is no token or the trie cannot hold
/// the words.
pub fn try_tok_env(
    bt: toktrie_hf_tokenizers::ByteTokenizer,
    vocab: usize,
    eos_ids: &[u32],
) -> (r: Option<Result<TokEnv, String>>)
    ensures
        match r {
            Some(e) => tok_env_fits(tokenizer_bytes(bt), vocab, eos_ids@) && tok_env_given(
                bt,
                vocab,
                eos_ids@,
                e,
            ),
            None => !tok_env_fits(tokenizer_bytes(bt), vocab, eos_ids@),
        },
{
    let words = bt.token_bytes();
    let n: usize = words.len();
    assert(texts(words@) =~= tokenizer_bytes(bt));
    let mut i: usize = 0;
    while i < eos_ids.len()
        invariant
            i <= eos_ids@.len(),
            n == tokenizer_bytes(bt).len(),
            forall|k: int| 0 <= k < i ==> #[trigger] eos_ids@[k] < n,
        decreases eos_ids.len() - i,
    {
        if eos_ids[i] as usize >= n {
            return None;
        }
        i += 1;
    }
    if vocab >= n && !padded_fits(words, vocab) {
        return None;
    }
    Some(build_tok_env(bt, vocab, eos_ids))
}

/// A grammar over a decode, one for each request.
pub struct Constraint {
    matcher: llguidance::Matcher,
    vocab: usize,
}

/// Taking tokens adds up: what was taken in two goes was taken in one, in the same order; neither the
/// grammar nor the tokenizer changes; and what has taken nothing more has taken what it had.
pub proof fn law_advances_add_up(
    a: Constraint,
    b: Constraint,
    c: Constraint,
    x: Seq<u32>,
    y: Seq<u32>,
)
    requires
        b.advanced(&a, x),
        c.advanced(&b, y),
    ensures
        c.advanced(&a, x + y),
        c.taken() == a.taken() + x + y,
        c.grammar() == a.grammar(),
        c.tokenizer() == a.tokenizer(),
        a.advanced(&a, Seq::empty()),
{
    assert(a.taken() + x + y =~= a.taken() + (x + y));
    assert(a.taken() + Seq::<u32>::empty() =~= a.taken());
}

impl Constraint {
    /// Number of tokens whose scores are masked.
    pub closed spec fn vocab(&self) -> nat {
        self.vocab as nat
    }

    /// Whether the grammar has stopped or failed.
    pub closed spec fn at_stop(&self) -> bool {
        matcher_stopped(self.matcher)
    }

    /// Whether the grammar may allow next what is true in `mask`.
    pub closed spec fn may_allow(&self, mask: Seq<bool>) -> bool {
        matcher_may_allow(self.matcher, mask)
    }

    /// Whether the grammar may force `tokens` next.
    pub closed spec fn may_force(&self, tokens: Seq<u32>) -> bool {
        matcher_may_force(self.matcher, tokens)
    }

    /// The grammar.
    pub closed spec fn grammar(&self) -> llguidance::api::TopLevelGrammar {
        matcher_grammar(self.matcher)
    }

    /// The tokenizer whose tokens the grammar takes.
    pub closed spec fn tokenizer(&self) -> toktrie_hf_tokenizers::ByteTokenizerEnv {
        matcher_env(self.matcher)
    }

    /// The tokens that the grammar has taken, in their order.
    pub closed spec fn taken(&self) -> Seq<u32> {
        matcher_taken(self.matcher)
    }

    /// Whether the grammar takes `tokens` next.
    pub closed spec fn takes(&self, tokens: Seq<u32>) -> bool {
        matcher_takes(self.matcher, tokens)
    }

    /// Whether this is `before` once it has taken `more`.
    pub open spec fn advanced(&self, before: &Constraint, more: Seq<u32>) -> bool {
        &&& self.grammar() == before.grammar()
        &&& self.tokenizer() == before.tokenizer()
        &&& self.taken() == before.taken() + more
    }

    pub closed spec fn wf(&self) -> bool {
        &&& matcher_plain(self.matcher)
        &&& matcher_stopped(self.matcher) || env_vocab(matcher_env(self.matcher)) == self.vocab
        &&& self.vocab <= u32::MAX
    }

    /// A constraint for `grammar` over the tokenizer `env`. The whole vocabulary of the tokenizer is
    /// masked. An error says which step failed: making the parser factory of the tokenizer, or compiling
    /// the grammar.
    pub fn new(
        env: TokEnv,
        grammar: llguidance::api::TopLevelGrammar,
    ) -> (r: Result<Constraint, ConstraintError>)
        requires
            env.wf(),
        ensures
            r is Ok <==> factory_made(env.inner()) && grammar_compiles(env.inner(), grammar),
            match r {
                Ok(c) => {
                    &&& c.wf()
                    &&& c.vocab() == env.vocab()
                    &&& c.grammar() == grammar
                    &&& c.tokenizer() == env.inner()
                    &&& c.taken() == Seq::<u32>::empty()
                },
                Err(e) => {
                    &&& e is ParserFactory <==> !factory_made(env.inner())
                    &&& e is CreateParser <==> factory_made(env.inner())
                },
            },
    {
        let vocab: usize = vocab_size(&env.env);
        let factory = match new_factory(env.env) {
            Ok(f) => f,
            Err(e) => {
                return Err(ConstraintError::ParserFactory(e));
            },
        };
        let matcher = match new_matcher(&factory, grammar) {
            Ok(m) => m,
            Err(e) => {
                return Err(ConstraintError::CreateParser(e));
            },
        };
        Ok(Constraint { matcher, vocab })
    }

    /// Rules out the tokens that the grammar does not allow next. No token is taken by it. Where the
    /// matcher has stopped or fails, the scores stay and the constraint is at its stop. What a given mask
    /// does to the scores is `mask_logits`.
    pub fn apply_mask(&mut self, logits: &mut Vec<u32>) -> (r: Result<(), ConstraintError>)
        requires
            old(self).wf(),
        ensures
            final(self).wf(),
            final(self).vocab() == old(self).vocab(),
            match r {
                Ok(_) => {
                    &&& !old(self).at_stop()
                    &&& !final(self).at_stop()
                    &&& final(self).advanced(old(self), Seq::empty())
                    &&& exists|allowed: Seq<bool>|
                        old(self).may_allow(allowed) && allowed.len() >= old(self).vocab()
                            && allowed.contains(true) && final(logits)@ == #[trigger] masked(
                            old(logits)@,
                            old(self).vocab(),
                            allowed,
                        )
                },
                Err(e) => e is Matcher && final(self).at_stop() && final(logits)@ == old(logits)@,
            },
    {
        let mask = match compute_mask(&mut self.matcher) {
            Ok(v) => v,
            Err(e) => {
                return Err(ConstraintError::Matcher(e));
            },
        };
        let n: usize = if logits.len() < self.vocab {
            logits.len()
        } else {
            self.vocab
        };
        let mut allowed: Vec<bool> = Vec::new();
        let mut id: usize = 0;
        while id < n
            invariant
                id <= n,
                n <= vob_bits(mask).len(),
                n <= u32::MAX,
                allowed@.len() == id,
                forall|k: int| 0 <= k < id ==> #[trigger] allowed@[k] == vob_bits(mask)[k],
            decreases n - id,
        {
            allowed.push(mask.is_allowed(id as u32));
            id += 1;
        }
        mask_logits(&allowed, self.vocab, logits);
        assert(logits@ =~= masked(old(logits)@, old(self).vocab(), vob_bits(mask)));
        Ok(())
    }

    /// The tokens that the grammar forces next; they are to be consumed without sampling, and are not
    /// taken by asking for them. Empty where the next token is a choice.
    pub fn forced(&mut self) -> (r: Vec<u32>)
        requires
            old(self).wf(),
        ensures
            final(self).wf(),
            final(self).vocab() == old(self).vocab(),
            old(self).may_force(r@),
            old(self).at_stop() ==> final(self).at_stop(),
            !final(self).at_stop() ==> final(self).advanced(old(self), Seq::empty()),
    {
        self.matcher.compute_ff_tokens()
    }

    /// Advances the grammar by one sampled token. After a stop no token is taken; a refusal is a stop.
    pub fn accept_one(&mut self, token: u32) -> (r: Result<(), ConstraintError>)
        requires
            old(self).wf(),
        ensures
            final(self).wf(),
            final(self).vocab() == old(self).vocab(),
            r is Ok <==> old(self).takes(seq![token]),
            match r {
                Ok(_) => !old(self).at_stop() && final(self).advanced(old(self), seq![token]),
                Err(e) => e is Matcher && final(self).at_stop(),
            },
    {
        match consume_token(&mut self.matcher, token) {
            Ok(_) => Ok(()),
            Err(e) => Err(ConstraintError::Matcher(e)),
        }
    }

    /// Advances the grammar by a run of forced tokens. After a stop no token is taken; a refusal is a
    /// stop.
    pub fn consume(&mut self, tokens: &[u32]) -> (r: Result<(), ConstraintError>)
        requires
            old(self).wf(),
        ensures
            final(self).wf(),
            final(self).vocab() == old(self).vocab(),
            r is Ok <==> old(self).takes(tokens@),
            match r {
                Ok(_) => {
                    &&& tokens@.len() > 0 ==> !old(self).at_stop()
                    &&& final(self).advanced(old(self), tokens@)
                },
                Err(e) => e is Matcher && final(self).at_stop(),
            },
    {
        match consume_tokens(&mut self.matcher, tokens) {
            Ok(_) => Ok(()),
            Err(e) => Err(ConstraintError::Matcher(e)),
        }
    }

    /// Whether the grammar has reached a stop: nothing further is required, or it failed.
    pub fn stopped(&self) -> (r: bool)
        requires
            self.wf(),
        ensures
            r == self.at_stop(),
    {
        self.matcher.is_stopped()
    }
}

} // verus!
