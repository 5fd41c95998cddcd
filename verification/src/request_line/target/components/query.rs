//! URL query: parameters of a key and a value.

use vstd::prelude::*;
use vstd::string::StringExecFns;
use proptest::test_runner::TestRng;
use crate::request_line::character_class::CharacterClass;
use crate::request_line::source::draw_count;
use crate::request_line::target::components::CharacterClasses;
use crate::request_line::text::{join, join_strings, push_char, texts};
use crate::request_line::url_char::{
    chars_text, generated_from, is_sub_delim, is_unreserved, lemma_generated_from_same_set,
    push_member, safe_and_percent_encoded_char, unreserved_chars, url_chars_to_string, UrlChar,
};

verus! {

/// What a key or a value of a query is generated from as it is: the
/// unreserved characters, the sub-delimiters but for `+`, `&` and `=`, and
/// `:`, `@`, `/`, `?` and the space. The space counts among them so that it
/// is never percent-encoded: it is written as `+`.
pub open spec fn is_query_char(c: char) -> bool {
    ||| is_unreserved(c)
    ||| (is_sub_delim(c) && c != '+' && c != '&' && c != '=')
    ||| c == ':'
    ||| c == '@'
    ||| c == '/'
    ||| c == '?'
    ||| c == ' '
}

/// The class of the characters of a key or a value.
pub fn query_class() -> (class: CharacterClass)
    ensures
        class.wf(),
        forall|c: char| #[trigger] class.is_safe(c) <==> is_query_char(c),
{
    let mut safe: Vec<char> = Vec::new();
    push_member(&mut safe, ':');
    push_member(&mut safe, '@');
    push_member(&mut safe, '/');
    push_member(&mut safe, '?');
    push_member(&mut safe, ' ');
    let unreserved = unreserved_chars();
    let mut i: usize = 0;
    let ghost before = safe@;
    while i < unreserved.len()
        invariant
            i <= unreserved.len(),
            forall|c: char|
                #[trigger] safe@.contains(c) <==> before.contains(c) || exists|k: int|
                    0 <= k < i && unreserved@[k] == c,
        decreases unreserved.len() - i,
    {
        push_member(&mut safe, unreserved[i]);
        i = i + 1;
    }
    proof {
        assert forall|c: char| #[trigger] safe@.contains(c) <==> before.contains(c)
            || is_unreserved(c) by {
            if is_unreserved(c) {
                assert(unreserved@.contains(c));
                let k = choose|k: int| 0 <= k < unreserved@.len() && unreserved@[k] == c;
                assert(0 <= k < i && unreserved@[k] == c);
            }
            if safe@.contains(c) && !before.contains(c) {
                let k = choose|k: int| 0 <= k < i && unreserved@[k] == c;
                assert(unreserved@.contains(c));
            }
        }
    }
    push_member(&mut safe, '!');
    push_member(&mut safe, '$');
    push_member(&mut safe, '\'');
    push_member(&mut safe, '(');
    push_member(&mut safe, ')');
    push_member(&mut safe, '*');
    push_member(&mut safe, ',');
    push_member(&mut safe, ';');
    CharacterClass::new(safe.as_slice())
}

/// The generated character as a query writes it: `+` for a space, and every
/// other as it is.
pub open spec fn in_query(generated: UrlChar) -> UrlChar {
    if generated == UrlChar::Normal(' ') {
        UrlChar::Normal('+')
    } else {
        generated
    }
}

/// The generated character as a query writes it.
pub fn query_char_from(generated: UrlChar) -> (written: UrlChar)
    ensures
        written == in_query(generated),
{
    match generated {
        UrlChar::Normal(c) => {
            if c == ' ' {
                UrlChar::Normal('+')
            } else {
                UrlChar::Normal(c)
            }
        },
        UrlChar::PercentEncoded(escape) => UrlChar::PercentEncoded(escape),
    }
}

/// Draws one character of a query.
fn chars(rng: &mut TestRng, class: &CharacterClass) -> (written: UrlChar)
    requires
        forall|c: char| #[trigger] class.is_safe(c) <==> is_query_char(c),
    ensures
        exists|generated: UrlChar|
            generated_in_query(generated) && written == #[trigger] in_query(generated),
{
    let generated = safe_and_percent_encoded_char(rng, class);
    proof {
        lemma_generated_from_same_set(
            |c: char| class.is_safe(c),
            |c: char| is_query_char(c),
            generated,
        );
    }
    let ghost drawn = generated;
    let written = query_char_from(generated);
    assert(generated_in_query(drawn) && written == in_query(drawn));
    written
}

/// The character is one that the generator draws for a query.
pub open spec fn generated_in_query(generated: UrlChar) -> bool {
    generated_from(|c: char| is_query_char(c), generated)
}

/// The character is one of a query: a generated one as the query writes it.
pub open spec fn is_written_in_query(written: UrlChar) -> bool {
    exists|generated: UrlChar|
        generated_in_query(generated) && written == #[trigger] in_query(generated)
}

/// The text is a key or a value of `min` to `max` characters of a query.
pub open spec fn is_query_subcomponent(text: Seq<char>, min: int, max: int) -> bool {
    exists|chars: Seq<UrlChar>|
        min <= chars.len() <= max && (forall|i: int|
            0 <= i < chars.len() ==> is_written_in_query(#[trigger] chars[i])) && text
            == #[trigger] chars_text(chars)
}

/// Draws a key or a value of `min_chars` to `max_chars` characters.
fn query_subcomponent(
    rng: &mut TestRng,
    class: &CharacterClass,
    min_chars: usize,
    max_chars: usize,
) -> (text: String)
    requires
        forall|c: char| #[trigger] class.is_safe(c) <==> is_query_char(c),
        min_chars <= max_chars,
    ensures
        is_query_subcomponent(text@, min_chars as int, max_chars as int),
{
    let count: usize = draw_count(rng, min_chars, max_chars);
    let mut written: Vec<UrlChar> = Vec::new();
    while written.len() < count
        invariant
            forall|c: char| #[trigger] class.is_safe(c) <==> is_query_char(c),
            written.len() <= count,
            forall|i: int| 0 <= i < written.len() ==> is_written_in_query(#[trigger] written@[i]),
        decreases count - written.len(),
    {
        let next = chars(rng, class);
        written.push(next);
    }
    let ghost drawn = written@;
    let text = url_chars_to_string(written);
    assert(text@ == chars_text(drawn));
    text
}

/// URL Query parameter.
#[derive(Debug, Clone, PartialEq, Eq)]
pub struct QueryParam {
    /// param key.
    pub key: String,
    /// param value, if it is not empty.
    pub value: Option<String>,
}

/// A key or a value has no more characters than this.
pub const QUERY_CHARS: usize = 50;

impl QueryParam {
    /// The text of the value, empty where there is none.
    pub open spec fn value_text(&self) -> Seq<char> {
        match self.value {
            Some(value) => value@,
            None => seq![],
        }
    }

    /// The text of the parameter: `<key>=<value>`.
    pub open spec fn text(&self) -> Seq<char> {
        self.key@ + seq!['='] + self.value_text()
    }

    /// Key and value are as the generator makes them, and a value that is
    /// there is not empty.
    pub open spec fn as_generated(&self) -> bool {
        &&& is_query_subcomponent(self.key@, 0, QUERY_CHARS as int)
        &&& is_query_subcomponent(self.value_text(), 0, QUERY_CHARS as int)
        &&& self.value matches Some(value) ==> value@.len() > 0
    }
}

/// The parameter of a key and a value, and its text. An empty value is no
/// value.
pub fn query_param_from(key: String, value: String) -> (out: (QueryParam, String))
    ensures
        out.0.key == key,
        out.0.value == if value@.len() == 0 {
            None
        } else {
            Some(value)
        },
        out.1@ == key@ + seq!['='] + value@,
        out.1@ == out.0.text(),
{
    let mut repr = key.clone();
    push_char(&mut repr, '=');
    repr.append(value.as_str());
    let param = QueryParam {
        key,
        value: if value.as_str().is_empty() {
            None
        } else {
            Some(value)
        },
    };
    proof {
        assert(repr@ =~= param.text());
    }
    (param, repr)
}

/// Draws a query parameter.
pub fn query_param(rng: &mut TestRng, classes: &CharacterClasses) -> (out: (QueryParam, String))
    ensures
        out.1@ == out.0.text(),
        out.0.as_generated(),
{
    let class = classes.query();
    let key = query_subcomponent(rng, class, 0, QUERY_CHARS);
    let value = query_subcomponent(rng, class, 0, QUERY_CHARS);
    query_param_from(key, value)
}

/// The texts of the parameters.
pub open spec fn params_texts(params: Seq<QueryParam>) -> Seq<Seq<char>> {
    params.map_values(|param: QueryParam| param.text())
}

/// The text of a query: the texts of its parameters with `&` between them.
pub open spec fn query_text(params: Seq<QueryParam>) -> Seq<char> {
    join(params_texts(params), seq!['&'])
}

/// The parameters of the pairs.
pub open spec fn params_of(pairs: Seq<(QueryParam, String)>) -> Seq<QueryParam> {
    pairs.map_values(|pair: (QueryParam, String)| pair.0)
}

/// The texts of the pairs.
pub open spec fn reprs_of(pairs: Seq<(QueryParam, String)>) -> Seq<Seq<char>> {
    pairs.map_values(|pair: (QueryParam, String)| pair.1@)
}

/// The query of the parameters and its text: the texts of the parameters
/// with `&` between them.
pub fn query_from(params: Vec<(QueryParam, String)>) -> (out: (Vec<QueryParam>, String))
    ensures
        out.0@ == params_of(params@),
        out.1@ == join(reprs_of(params@), seq!['&']),
{
    let ghost pairs = params@;
    let mut out_params: Vec<QueryParam> = Vec::new();
    let mut reprs: Vec<String> = Vec::new();
    for pair in iter: params
        invariant
            iter.seq() == pairs,
            out_params.len() == iter.index(),
            reprs.len() == iter.index(),
            forall|k: int| 0 <= k < out_params.len() ==> #[trigger] out_params@[k] == pairs[k].0,
            forall|k: int| 0 <= k < reprs.len() ==> (#[trigger] reprs@[k])@ == pairs[k].1@,
    {
        let (param, repr) = pair;
        out_params.push(param);
        reprs.push(repr);
    }
    proof {
        reveal_strlit("&");
        assert("&"@ =~= seq!['&']);
        assert(out_params@ =~= params_of(pairs));
        assert(texts(reprs@) =~= reprs_of(pairs));
    }
    let repr = join_strings(&reprs, "&");
    (out_params, repr)
}

/// Every parameter is as the generator makes them.
pub open spec fn all_as_generated(params: Seq<QueryParam>) -> bool {
    forall|i: int| 0 <= i < params.len() ==> (#[trigger] params[i]).as_generated()
}

/// Draws a query of `min_queries` to `max_queries` parameters.
pub fn query(
    rng: &mut TestRng,
    classes: &CharacterClasses,
    min_queries: usize,
    max_queries: usize,
) -> (out: (Vec<QueryParam>, String))
    requires
        min_queries <= max_queries,
    ensures
        min_queries <= out.0.len() <= max_queries,
        all_as_generated(out.0@),
        out.1@ == query_text(out.0@),
{
    let count: usize = draw_count(rng, min_queries, max_queries);
    let mut params: Vec<(QueryParam, String)> = Vec::new();
    while params.len() < count
        invariant
            params.len() <= count,
            forall|i: int|
                0 <= i < params.len() ==> (#[trigger] params@[i]).0.as_generated() && params@[i].1@
                    == params@[i].0.text(),
        decreases count - params.len(),
    {
        let next = query_param(rng, classes);
        params.push(next);
    }
    proof {
        assert(params_texts(params_of(params@)) =~= reprs_of(params@));
        assert forall|i: int| 0 <= i < params_of(params@).len() implies (
        #[trigger] params_of(params@)[i]).as_generated() by {
            assert(params@[i].0.as_generated());
        }
    }
    query_from(params)
}

} // verus!
