use infr::grammar::{
    build_tok_env, forced_tool_call_grammar, mask_logits, tool_call_schema, try_tok_env, Constraint,
    ConstraintError, TokEnv, ToolsError, NEG_INFINITY_BITS,
};
use infr::json::{to_value, Json};
use serde_json::Value;
use toktrie_hf_tokenizers::ByteTokenizer;

fn json_of(v: &Value) -> Json {
    match v {
        Value::Null => Json::Null,
        Value::Bool(b) => Json::Bool(*b),
        Value::Number(n) => Json::Number(n.clone()),
        Value::String(s) => Json::Str(s.clone()),
        Value::Array(a) => Json::Array(a.iter().map(json_of).collect()),
        Value::Object(m) => {
            Json::Object(m.iter().map(|(k, v)| (k.clone(), json_of(v))).collect())
        }
    }
}

fn parse(text: &str) -> Value {
    serde_json::from_str(text).unwrap()
}

const TOOLS: &str = r#"[{
    "type": "function",
    "function": {
        "name": "get_weather",
        "parameters": {
            "type": "object",
            "properties": { "city": { "type": "string" } },
            "required": ["city"]
        }
    }
}]"#;

/// Characters of the bytes of a byte-level vocabulary, in the order of their tokens: printable
/// bytes stand for themselves and come first.
fn byte_chars() -> Vec<(u8, char)> {
    let mut v: Vec<(u8, char)> = Vec::new();
    for b in 0..=255u8 {
        if (b'!'..=b'~').contains(&b) || (0xa1..=0xac).contains(&b) || b >= 0xae {
            v.push((b, char::from_u32(b as u32).unwrap()));
        }
    }
    let mut next = 256;
    for b in 0..=255u8 {
        if !v.iter().any(|(c, _)| *c == b) {
            v.push((b, char::from_u32(next).unwrap()));
            next += 1;
        }
    }
    v
}

const EOS: u32 = 256;

const VOCAB: usize = 260;

/// A tokenizer with one token for each byte, and an end token.
fn tokenizer() -> ByteTokenizer {
    let mut vocab = String::new();
    for (id, (_, c)) in byte_chars().iter().enumerate() {
        let name = serde_json::to_string(&c.to_string()).unwrap();
        vocab.push_str(&format!("{name}: {id}, "));
    }
    vocab.push_str("\"</s>\": 256");
    let json = format!(
        "{{\"version\": \"1.0\", \"truncation\": null, \"padding\": null, \
          \"added_tokens\": [{{\"id\": 256, \"content\": \"</s>\", \"single_word\": false, \
          \"lstrip\": false, \"rstrip\": false, \"normalized\": false, \"special\": true}}], \
          \"normalizer\": null, \
          \"pre_tokenizer\": {{\"type\": \"ByteLevel\", \"add_prefix_space\": false, \
          \"trim_offsets\": true, \"use_regex\": false}}, \
          \"post_processor\": null, \
          \"decoder\": {{\"type\": \"ByteLevel\", \"add_prefix_space\": false, \
          \"trim_offsets\": true, \"use_regex\": false}}, \
          \"model\": {{\"type\": \"BPE\", \"dropout\": null, \"unk_token\": null, \
          \"continuing_subword_prefix\": null, \"end_of_word_suffix\": null, \
          \"fuse_unk\": false, \"byte_fallback\": false, \"vocab\": {{{vocab}}}, \
          \"merges\": []}}}}"
    );
    ByteTokenizer::from_json_bytes(json.as_bytes()).expect("byte tokenizer")
}

fn env() -> TokEnv {
    build_tok_env(tokenizer(), VOCAB, &[EOS]).expect("tok env")
}

fn decode(tokens: &[u32]) -> String {
    let bytes: Vec<u8> = tokens.iter().map(|t| byte_chars()[*t as usize].0).collect();
    String::from_utf8(bytes).unwrap()
}

fn argmax(logits: &[u32]) -> u32 {
    let mut best = 0;
    for (i, l) in logits.iter().enumerate() {
        if f32::from_bits(*l) > f32::from_bits(logits[best]) {
            best = i;
        }
    }
    best as u32
}

#[test]
fn forced_grammar_constrains_first_token() {
    let grammar = forced_tool_call_grammar(&json_of(&parse(TOOLS))).expect("grammar");
    let mut c = Constraint::new(env(), grammar).expect("constraint");
    let mut out: Vec<u32> = Vec::new();
    for step in 0..60 {
        if c.stopped() {
            break;
        }
        let forced = c.forced();
        if !forced.is_empty() {
            c.consume(&forced).expect("consume forced");
            out.extend(forced);
            continue;
        }
        let mut logits = vec![0.0f32.to_bits(); VOCAB];
        c.apply_mask(&mut logits).expect("mask");
        let allowed = logits.iter().filter(|l| f32::from_bits(**l).is_finite()).count();
        assert!(allowed > 0, "step {step}: grammar masked out EVERY token");
        assert!(allowed < VOCAB, "step {step}: grammar allowed everything");
        let tok = argmax(&logits);
        c.accept_one(tok).expect("accept_one must agree with mask");
        out.push(tok);
    }
    let text = decode(&out);
    println!("constrained prefix: {text:?}");
    let t = text.trim_start();
    assert!(t.starts_with('{'), "expected a JSON object, got {text:?}");
    assert!(t.contains("name"), "JSON should constrain toward the `name` key: {text:?}");
}

#[test]
fn forced_tokens_spell_the_only_way_on() {
    let grammar = forced_tool_call_grammar(&json_of(&parse(TOOLS))).unwrap();
    let mut c = Constraint::new(env(), grammar).unwrap();
    let at = |b: u8| byte_chars().iter().position(|(x, _)| *x == b).unwrap() as u32;
    for b in b"{\"" {
        if c.forced().is_empty() {
            c.accept_one(at(*b)).unwrap();
        } else {
            let forced = c.forced();
            assert_eq!(forced[0], at(*b));
            c.consume(&forced[..1]).unwrap();
        }
    }
    let forced = c.forced();
    assert!(decode(&forced).starts_with("name"), "forced {:?}", decode(&forced));
}

#[test]
fn a_refused_token_stops_the_constraint() {
    let grammar = forced_tool_call_grammar(&json_of(&parse(TOOLS))).unwrap();
    let mut c = Constraint::new(env(), grammar).unwrap();
    assert!(!c.stopped());
    // A call starts with a brace, not with a closing one.
    let bad = byte_chars().iter().position(|(b, _)| *b == b'}').unwrap() as u32;
    assert!(matches!(c.accept_one(bad), Err(ConstraintError::Matcher(_))));
    assert!(c.stopped());
    let mut logits = vec![5, 6, 7];
    assert!(matches!(c.apply_mask(&mut logits), Err(ConstraintError::Matcher(_))));
    assert_eq!(logits, vec![5, 6, 7]);
    assert!(c.accept_one(0).is_err());
    assert!(c.consume(&[0]).is_err());
}

#[test]
fn the_mask_allows_a_brace_and_not_a_letter() {
    let grammar = forced_tool_call_grammar(&json_of(&parse(TOOLS))).unwrap();
    let mut c = Constraint::new(env(), grammar).unwrap();
    let mut logits = vec![1.0f32.to_bits(); VOCAB + 3];
    c.apply_mask(&mut logits).unwrap();
    let at = |b: u8| byte_chars().iter().position(|(x, _)| *x == b).unwrap();
    assert_eq!(logits[at(b'{')], 1.0f32.to_bits());
    assert_eq!(logits[at(b'a')], NEG_INFINITY_BITS);
    assert_eq!(logits[EOS as usize], NEG_INFINITY_BITS);
    // Scores beyond the vocabulary stay.
    assert_eq!(logits[VOCAB..], [1.0f32.to_bits(); 3]);
}

#[test]
fn a_grammar_that_does_not_compile_is_refused() {
    let schema = parse(r#"{"type": "no such type"}"#);
    let grammar = llguidance::api::TopLevelGrammar::from_json_schema(schema);
    assert!(matches!(Constraint::new(env(), grammar), Err(ConstraintError::CreateParser(_))));
}

#[test]
fn masking_by_hand() {
    let mut l = vec![1, 2, 3, 4];
    mask_logits(&vec![true, false, true], 3, &mut l);
    assert_eq!(l, vec![1, NEG_INFINITY_BITS, 3, 4]);
    mask_logits(&vec![true, false, true], 3, &mut l);
    assert_eq!(l, vec![1, NEG_INFINITY_BITS, 3, 4]);
    let mut short = vec![1];
    mask_logits(&vec![false], 100, &mut short);
    assert_eq!(short, vec![NEG_INFINITY_BITS]);
    assert_eq!(f32::from_bits(NEG_INFINITY_BITS), f32::NEG_INFINITY);
}

#[test]
fn schema_of_two_tools() {
    let tools = parse(
        r#"[{"function": {"name": "a", "parameters": {"type": "object", "x": [1, 2.5, null]}}},
            {"function": {"name": "b"}}]"#,
    );
    let got = to_value(&tool_call_schema(&json_of(&tools)).unwrap());
    let want = parse(
        r#"{"anyOf": [
            {"type": "object",
             "properties": {"name": {"const": "a"},
                            "arguments": {"type": "object", "x": [1, 2.5, null]}},
             "required": ["name", "arguments"],
             "additionalProperties": false},
            {"type": "object",
             "properties": {"name": {"const": "b"}, "arguments": {"type": "object"}},
             "required": ["name", "arguments"],
             "additionalProperties": false}]}"#,
    );
    assert_eq!(got, want);
    // Members keep their order.
    assert_eq!(serde_json::to_string(&got).unwrap(), serde_json::to_string(&want).unwrap());
    let grammar = forced_tool_call_grammar(&json_of(&tools)).unwrap();
    assert_eq!(grammar.grammars.len(), 1);
    assert_eq!(grammar.grammars[0].json_schema, Some(want));
}

#[test]
fn tools_without_a_schema() {
    let err = |text: &str| tool_call_schema(&json_of(&parse(text))).err();
    assert_eq!(err("{}"), Some(ToolsError::NotArray));
    assert_eq!(err("[{\"type\": \"function\"}]"), Some(ToolsError::MissingFunction));
    assert_eq!(err("[3]"), Some(ToolsError::MissingFunction));
    assert_eq!(err("[{\"function\": {}}]"), Some(ToolsError::MissingName));
    assert_eq!(err("[{\"function\": {\"name\": 3}}]"), Some(ToolsError::MissingName));
    assert_eq!(
        err("[{\"function\": {\"name\": \"a\"}}, {\"function\": 1}, 2]"),
        Some(ToolsError::MissingName)
    );
    assert_eq!(err("[]"), None);
    assert!(matches!(
        forced_tool_call_grammar(&Json::Null),
        Err(ToolsError::NotArray)
    ));
}

#[test]
fn trees_survive_the_way_to_values() {
    let v = parse(r#"{"z": [true, false, null, -3, 1e30, "text"], "a": {"b": {}}, "é": []}"#);
    let j = json_of(&v);
    assert_eq!(to_value(&j), v);
    assert_eq!(to_value(&j.copy()), v);
    assert_eq!(j.get("a").and_then(|a| a.get("b")).map(to_value), Some(parse("{}")));
    assert!(j.get("missing").is_none());
    assert_eq!(j.get("z").and_then(Json::as_array).map(Vec::len), Some(6));
    assert_eq!(j.get("z").and_then(|z| z.as_array()).and_then(|a| a[5].as_str()), Some("text"));
}

#[test]
fn a_second_mask_changes_nothing() {
    let grammar = forced_tool_call_grammar(&json_of(&parse(TOOLS))).unwrap();
    let mut c = Constraint::new(env(), grammar).unwrap();
    for _ in 0..12 {
        let mut logits = vec![1.0f32.to_bits(); VOCAB];
        c.apply_mask(&mut logits).unwrap();
        let once = logits.clone();
        c.apply_mask(&mut logits).unwrap();
        assert_eq!(logits, once);
        // Nor does asking for the forced tokens.
        c.forced();
        let mut fresh = vec![1.0f32.to_bits(); VOCAB];
        c.apply_mask(&mut fresh).unwrap();
        assert_eq!(fresh, once);
        c.accept_one(argmax(&once)).unwrap();
    }
}

#[test]
fn a_token_advances_the_grammar() {
    let schema = parse(r#"{"enum": ["ab", "cd"]}"#);
    let grammar = llguidance::api::TopLevelGrammar::from_json_schema(schema);
    let mut c = Constraint::new(env(), grammar).unwrap();
    let at = |b: u8| byte_chars().iter().position(|(x, _)| *x == b).unwrap();
    let allowed = |c: &mut Constraint| {
        let mut l = vec![1.0f32.to_bits(); VOCAB];
        c.apply_mask(&mut l).unwrap();
        (0..VOCAB).filter(|i| l[*i] != NEG_INFINITY_BITS).collect::<Vec<usize>>()
    };
    assert_eq!(allowed(&mut c), vec![at(b'"')]);
    c.accept_one(at(b'"') as u32).unwrap();
    let mut choice = vec![at(b'a'), at(b'c')];
    choice.sort();
    assert_eq!(allowed(&mut c), choice);
    assert!(c.forced().is_empty());
    c.accept_one(at(b'c') as u32).unwrap();
    assert_eq!(allowed(&mut c), vec![at(b'd')]);
    assert_eq!(decode(&c.forced()), "d\"");
    c.consume(&[at(b'd') as u32, at(b'"') as u32]).unwrap();
    assert!(c.stopped());
    assert!(c.accept_one(at(b'"') as u32).is_err());
}

/// The tokens allowed after `text`, under a schema that takes a whole number.
fn allowed_in_a_number(env: TokEnv, text: &[u8], width: usize) -> Vec<usize> {
    let schema = parse(r#"{"type": "integer"}"#);
    let grammar = llguidance::api::TopLevelGrammar::from_json_schema(schema);
    let mut c = Constraint::new(env, grammar).unwrap();
    for b in text {
        let t = byte_chars().iter().position(|(x, _)| x == b).unwrap();
        c.accept_one(t as u32).unwrap();
    }
    let mut l = vec![1.0f32.to_bits(); width];
    c.apply_mask(&mut l).unwrap();
    (0..width).filter(|i| l[*i] != NEG_INFINITY_BITS).collect()
}

#[test]
fn ends_of_text_are_those_that_were_marked() {
    let z = byte_chars().iter().position(|(b, _)| *b == b'z').unwrap();
    let eos = EOS as usize;
    let ends = |ids: &[u32]| {
        let env = build_tok_env(tokenizer(), VOCAB, ids).unwrap();
        let a = allowed_in_a_number(env, b"1", VOCAB);
        (a.contains(&eos), a.contains(&z))
    };
    assert_eq!(ends(&[EOS]), (true, false));
    assert_eq!(ends(&[z as u32]), (false, true));
    assert_eq!(ends(&[z as u32, EOS]), (true, true));
    // Without marks the tokenizer's own end stays.
    assert_eq!(ends(&[]), (true, false));
}

#[test]
fn the_trie_is_as_wide_as_the_logits() {
    // One token for each byte, and the end.
    let n = 257;
    for vocab in [n, n + 1, 400] {
        let env = build_tok_env(tokenizer(), vocab, &[EOS]).unwrap();
        let a = allowed_in_a_number(env, b"", 450);
        // What fills the vocabulary up is ruled out; scores beyond it stay.
        assert!(a.iter().all(|i| *i < 256 || *i >= vocab), "{vocab}: {a:?}");
        assert!((vocab..450).all(|i| a.contains(&i)));
        assert!(a.iter().any(|i| *i < 256));
    }
    assert!(build_tok_env(tokenizer(), n - 1, &[EOS]).is_err());
    assert!(build_tok_env(tokenizer(), 0, &[]).is_err());
}

#[test]
fn an_environment_that_cannot_be_set_up_is_told_before() {
    assert!(matches!(try_tok_env(tokenizer(), VOCAB, &[EOS]), Some(Ok(_))));
    assert!(matches!(try_tok_env(tokenizer(), 10, &[EOS]), Some(Err(_))));
    // Token 257 only fills up.
    assert!(try_tok_env(tokenizer(), VOCAB, &[EOS, 257]).is_none());
    assert!(try_tok_env(tokenizer(), 10, &[257]).is_none());
    assert!(try_tok_env(tokenizer(), usize::MAX, &[]).is_none());
    assert!(try_tok_env(tokenizer(), 0x100_0000, &[]).is_none());
}

#[test]
fn fillers_are_a_mark_and_the_number() {
    let env = toktrie_hf_tokenizers::ByteTokenizerEnv::new(tokenizer(), Some(1002)).unwrap();
    assert_eq!(env.tok_trie.token(257), b"\xff<[257]>");
    assert_eq!(env.tok_trie.token(1001), b"\xff<[1001]>");
    assert_eq!(env.tok_trie.vocab_size(), 1002);
    assert_eq!(env.tok_trie.eos_tokens(), &[EOS]);
}
