//! The tokenizer: a single left-to-right scan that turns raw markup text
//! into a linear sequence of [`Token`]s, with attribute-list parsing done by
//! a second character-level state machine.
//!
//! The whole scan is modelled by spec-level step functions ([`tok_step`],
//! [`attr_step`]); a spec result of `None` marks an input on which the scan
//! has no defined result (a malformed tag or attribute list). The `try_`
//! entry points are total and report that case as `None`; [`tokenize`] and
//! [`parse_attributes`] exclude it by `requires`.

use vstd::prelude::*;

use crate::chars::char_vec_of_str;
use crate::chars::spec_trim;
use crate::chars::string_of_chars;
use crate::chars::subvec;
use crate::chars::trim_chars;

verus! {

/// A name/value pair attached to an opening tag.
#[derive(Debug, PartialEq)]
pub struct Attribute {
    name: String,
    value: String,
}

impl Clone for Attribute {
    /// A copy with the same name and value.
    fn clone(&self) -> (res: Attribute)
        ensures
            res@ == self@,
    {
        Attribute { name: self.name.clone(), value: self.value.clone() }
    }
}

/// The mathematical value of an [`Attribute`]: its name and value as
/// character sequences.
#[verifier::ext_equal]
pub struct AttrVal {
    pub name: Seq<char>,
    pub value: Seq<char>,
}

impl View for Attribute {
    type V = AttrVal;

    closed spec fn view(&self) -> AttrVal {
        AttrVal { name: self.name@, value: self.value@ }
    }
}

impl Attribute {
    pub fn new(name: String, value: String) -> (a: Attribute)
        ensures
            a@ == (AttrVal { name: name@, value: value@ }),
    {
        Attribute { name, value }
    }

    pub fn name(&self) -> (r: &String)
        ensures
            r@ == self@.name,
    {
        &self.name
    }

    pub fn value(&self) -> (r: &String)
        ensures
            r@ == self@.value,
    {
        &self.value
    }
}

/// An atomic lexical unit of markup: a sentinel, a tag boundary, or a run of
/// text.
#[derive(Debug, Clone, PartialEq)]
pub enum Token {
    Start,
    OpeningTag(String, Vec<Attribute>),
    ClosingTag(String),
    Text(String),
    End,
}

/// The mathematical value of a [`Token`].
#[verifier::ext_equal]
pub enum TokenVal {
    Start,
    OpeningTag(Seq<char>, Seq<AttrVal>),
    ClosingTag(Seq<char>),
    Text(Seq<char>),
    End,
}

/// The views of a sequence of attributes.
pub open spec fn attrs_view(v: Seq<Attribute>) -> Seq<AttrVal> {
    v.map_values(|a: Attribute| a@)
}

impl View for Token {
    type V = TokenVal;

    open spec fn view(&self) -> TokenVal {
        match self {
            Token::Start => TokenVal::Start,
            Token::OpeningTag(name, attrs) => TokenVal::OpeningTag(name@, attrs_view(attrs@)),
            Token::ClosingTag(name) => TokenVal::ClosingTag(name@),
            Token::Text(content) => TokenVal::Text(content@),
            Token::End => TokenVal::End,
        }
    }
}

/// The views of a sequence of tokens.
pub open spec fn tokens_view(v: Seq<Token>) -> Seq<TokenVal> {
    v.map_values(|t: Token| t@)
}

/// Tokenizer state: scanning inside a tag (between `<` and `>`) or outside.
#[derive(Debug, PartialEq, Eq, Structural, Clone, Copy)]
pub enum State {
    InTag,
    OutTag,
}

/// Attribute-parser state: accumulating a name or a value.
#[derive(Debug, PartialEq, Eq, Structural, Clone, Copy)]
pub enum AttributeState {
    Name,
    Value,
}

/// The attribute parser's full state between two characters.
#[verifier::ext_equal]
pub struct AttrScan {
    pub state: AttributeState,
    pub in_quotation: bool,
    pub name: Seq<char>,
    pub value: Seq<char>,
    pub attrs: Seq<AttrVal>,
}

pub open spec fn attr_scan_init() -> AttrScan {
    AttrScan {
        state: AttributeState::Name,
        in_quotation: false,
        name: Seq::empty(),
        value: Seq::empty(),
        attrs: Seq::empty(),
    }
}

/// One character of the attribute state machine. `None` marks the fatal
/// cases: `=` or a space inside quotes while still reading a name, a quote
/// while still reading a name, or a space right after a bare name.
pub open spec fn attr_step(m: AttrScan, c: char) -> Option<AttrScan> {
    if c == '=' {
        if m.in_quotation {
            if m.state is Value {
                Some(AttrScan { value: m.value.push(c), ..m })
            } else {
                None
            }
        } else {
            Some(AttrScan { state: AttributeState::Value, ..m })
        }
    } else if c == ' ' {
        if m.in_quotation {
            if m.state is Value {
                Some(AttrScan { value: m.value.push(c), ..m })
            } else {
                None
            }
        } else {
            if m.state is Name {
                None
            } else {
                Some(
                    AttrScan {
                        state: AttributeState::Name,
                        in_quotation: m.in_quotation,
                        name: Seq::empty(),
                        value: Seq::empty(),
                        attrs: m.attrs.push(AttrVal { name: m.name, value: m.value }),
                    },
                )
            }
        }
    } else if c == '"' {
        if m.state is Value {
            Some(AttrScan { in_quotation: !m.in_quotation, ..m })
        } else {
            None
        }
    } else {
        match m.state {
            AttributeState::Name => Some(AttrScan { name: m.name.push(c), ..m }),
            AttributeState::Value => Some(AttrScan { value: m.value.push(c), ..m }),
        }
    }
}

/// The attribute state machine run over a whole character sequence.
pub open spec fn attr_scan(s: Seq<char>, m: AttrScan) -> Option<AttrScan>
    decreases s.len(),
{
    if s.len() == 0 {
        Some(m)
    } else {
        match attr_step(m, s[0]) {
            Option::None => None,
            Option::Some(m2) => attr_scan(s.drop_first(), m2),
        }
    }
}

/// What parsing an attribute list yields on `raw`: the input is trimmed and
/// scanned; a final pending pair is kept only when both its name and its
/// value are non-empty. `None` marks the fatal cases: a step with no defined
/// result, or a quotation left open at the end.
pub open spec fn spec_parse_attributes(raw: Seq<char>) -> Option<Seq<AttrVal>> {
    match attr_scan(spec_trim(raw), attr_scan_init()) {
        Option::None => None,
        Option::Some(m) => if m.in_quotation {
            None
        } else if m.name.len() > 0 && m.value.len() > 0 {
            Some(m.attrs.push(AttrVal { name: m.name, value: m.value }))
        } else {
            Some(m.attrs)
        },
    }
}

/// Total attribute parsing: `None` exactly on the inputs whose scan has no
/// defined result.
pub fn try_parse_attributes(s: &str) -> (r: Option<Vec<Attribute>>)
    ensures
        match r {
            Option::Some(v) => spec_parse_attributes(s@) == Some(attrs_view(v@)),
            Option::None => spec_parse_attributes(s@) is None,
        },
{
    let sv = char_vec_of_str(s);
    let t = trim_chars(&sv);
    let n = t.len();

    let mut attrs: Vec<Attribute> = Vec::new();
    let mut state: AttributeState = AttributeState::Name;
    let mut in_quotation = false;
    let mut attr_name: Vec<char> = Vec::new();
    let mut attr_value: Vec<char> = Vec::new();

    proof {
        assert(t@.skip(0) =~= t@);
        assert(attrs_view(attrs@) =~= Seq::<AttrVal>::empty());
    }

    let mut i: usize = 0;
    while i < n
        invariant
            i <= n,
            n == t@.len(),
            t@ == spec_trim(s@),
            attr_scan(
                t@.skip(i as int),
                AttrScan {
                    state: state,
                    in_quotation: in_quotation,
                    name: attr_name@,
                    value: attr_value@,
                    attrs: attrs_view(attrs@),
                },
            ) == attr_scan(spec_trim(s@), attr_scan_init()),
        decreases n - i,
    {
        let ghost g = AttrScan {
            state: state,
            in_quotation: in_quotation,
            name: attr_name@,
            value: attr_value@,
            attrs: attrs_view(attrs@),
        };
        let c = t[i];
        proof {
            assert(t@.skip(i as int)[0] == c);
            assert(t@.skip(i as int).drop_first() =~= t@.skip(i + 1));
        }
        if c == '=' {
            if in_quotation {
                if !matches!(state, AttributeState::Value) {
                    return None;
                }
                attr_value.push(c);
            } else {
                state = AttributeState::Value;
            }
        } else if c == ' ' {
            if in_quotation {
                if !matches!(state, AttributeState::Value) {
                    return None;
                }
                attr_value.push(c);
            } else {
                if matches!(state, AttributeState::Name) {
                    return None;
                }
                attrs.push(
                    Attribute { name: string_of_chars(&attr_name), value: string_of_chars(&attr_value) },
                );
                attr_name = Vec::new();
                attr_value = Vec::new();
                state = AttributeState::Name;
                proof {
                    assert(attrs_view(attrs@) =~= g.attrs.push(AttrVal { name: g.name, value: g.value }));
                }
            }
        } else if c == '"' {
            if !matches!(state, AttributeState::Value) {
                return None;
            }
            in_quotation = !in_quotation;
        } else {
            match state {
                AttributeState::Name => attr_name.push(c),
                AttributeState::Value => attr_value.push(c),
            }
        }
        proof {
            let g2 = AttrScan {
                state: state,
                in_quotation: in_quotation,
                name: attr_name@,
                value: attr_value@,
                attrs: attrs_view(attrs@),
            };
            assert(attr_step(g, c) == Some(g2));
        }
        i = i + 1;
    }

    proof {
        assert(t@.skip(n as int) =~= Seq::<char>::empty());
    }
    if in_quotation {
        return None;
    }
    if attr_name.len() > 0 && attr_value.len() > 0 {
        let ghost g = AttrScan {
            state: state,
            in_quotation: in_quotation,
            name: attr_name@,
            value: attr_value@,
            attrs: attrs_view(attrs@),
        };
        attrs.push(Attribute { name: string_of_chars(&attr_name), value: string_of_chars(&attr_value) });
        proof {
            assert(attrs_view(attrs@) =~= g.attrs.push(AttrVal { name: g.name, value: g.value }));
        }
    }
    Some(attrs)
}

/// Parses an attribute list, as [`spec_parse_attributes`] states. The inputs
/// on which the scan has no defined result are excluded by `requires`.
pub fn parse_attributes(s: &str) -> (r: Vec<Attribute>)
    requires
        spec_parse_attributes(s@) is Some,
    ensures
        Some(attrs_view(r@)) == spec_parse_attributes(s@),
{
    try_parse_attributes(s).unwrap()
}

/// The tokenizer's full state between two characters: the scan state, the
/// pending word buffer, and the tokens emitted so far.
#[verifier::ext_equal]
pub struct TokScan {
    pub state: State,
    pub word: Seq<char>,
    pub tokens: Seq<TokenVal>,
}

pub open spec fn tok_scan_init() -> TokScan {
    TokScan { state: State::OutTag, word: Seq::empty(), tokens: seq![TokenVal::Start] }
}

/// A trimmed tag word split on its first space: the tag-name portion and the
/// attribute-list portion (absent attributes yield an empty portion).
pub open spec fn spec_split_tag(s: Seq<char>) -> (Seq<char>, Seq<char>) {
    match s.index_of_first(' ') {
        Option::Some(i) => (s.subrange(0, i), s.subrange(i + 1, s.len() as int)),
        Option::None => (s, Seq::empty()),
    }
}

/// One character of the tokenizer state machine. On `<`, a non-empty trimmed
/// pending word is flushed as a `Text` token. On `>`, the trimmed pending
/// word becomes a `ClosingTag` (leading `/` stripped) or an `OpeningTag`
/// with its parsed attributes. `None` marks the fatal cases: `>` outside a
/// tag, and an attribute list whose scan has no defined result.
pub open spec fn tok_step(m: TokScan, c: char) -> Option<TokScan> {
    if c == '<' {
        let t = spec_trim(m.word);
        if t.len() != 0 {
            Some(
                TokScan {
                    state: State::InTag,
                    word: Seq::empty(),
                    tokens: m.tokens.push(TokenVal::Text(t)),
                },
            )
        } else {
            Some(TokScan { state: State::InTag, word: m.word, tokens: m.tokens })
        }
    } else if c == '>' {
        if !(m.state is InTag) {
            None
        } else {
            let t = spec_trim(m.word);
            if t.len() == 0 {
                Some(TokScan { state: State::OutTag, word: m.word, tokens: m.tokens })
            } else {
                let (tag_name, attr_text) = spec_split_tag(t);
                match spec_parse_attributes(attr_text) {
                    Option::None => None,
                    Option::Some(attrs) => {
                        let tok = if tag_name.len() > 0 && tag_name[0] == '/' {
                            TokenVal::ClosingTag(tag_name.drop_first())
                        } else {
                            TokenVal::OpeningTag(tag_name, attrs)
                        };
                        Some(
                            TokScan {
                                state: State::OutTag,
                                word: Seq::empty(),
                                tokens: m.tokens.push(tok),
                            },
                        )
                    },
                }
            }
        }
    } else {
        Some(TokScan { state: m.state, word: m.word.push(c), tokens: m.tokens })
    }
}

/// The tokenizer state machine run over a whole character sequence.
pub open spec fn tok_scan(s: Seq<char>, m: TokScan) -> Option<TokScan>
    decreases s.len(),
{
    if s.len() == 0 {
        Some(m)
    } else {
        match tok_step(m, s[0]) {
            Option::None => None,
            Option::Some(m2) => tok_scan(s.drop_first(), m2),
        }
    }
}

/// What tokenizing yields on `s`: the scan's tokens, a final non-empty
/// trimmed pending word flushed as `Text`, and the `Start`/`End` framing.
/// `None` marks an input on which the scan has no defined result.
pub open spec fn spec_tokenize(s: Seq<char>) -> Option<Seq<TokenVal>> {
    match tok_scan(s, tok_scan_init()) {
        Option::None => None,
        Option::Some(m) => {
            let t = spec_trim(m.word);
            let toks = if t.len() > 0 {
                m.tokens.push(TokenVal::Text(t))
            } else {
                m.tokens
            };
            Some(toks.push(TokenVal::End))
        },
    }
}

/// The index of the first space in `v`, if any.
fn find_space(v: &Vec<char>) -> (r: Option<usize>)
    ensures
        match r {
            Option::Some(i) => v@.index_of_first(' ') == Some(i as int),
            Option::None => v@.index_of_first(' ') is None,
        },
{
    let n = v.len();
    let mut i: usize = 0;
    while i < n
        invariant
            i <= n == v@.len(),
            forall|j: int| 0 <= j < i ==> v@[j] != ' ',
        decreases n - i,
    {
        if v[i] == ' ' {
            proof {
                v@.index_of_first_ensures(' ');
                assert(v@.contains(' ')) by {
                    assert(v@[i as int] == ' ');
                }
                let k = v@.index_of_first(' ').unwrap();
                assert(!(k < i) && !(k > i));
            }
            return Some(i);
        }
        i = i + 1;
    }
    proof {
        v@.index_of_first_ensures(' ');
        if v@.contains(' ') {
            let k = choose|k: int| 0 <= k < v@.len() && v@[k] == ' ';
            assert(v@[k] != ' ');
        }
    }
    None
}

/// Total tokenizing: `None` exactly on the inputs whose scan has no defined
/// result.
pub fn try_tokenize(html: &str) -> (r: Option<Vec<Token>>)
    ensures
        match r {
            Option::Some(v) => spec_tokenize(html@) == Some(tokens_view(v@)),
            Option::None => spec_tokenize(html@) is None,
        },
{
    let hv = char_vec_of_str(html);
    let n = hv.len();

    let mut tokens: Vec<Token> = Vec::new();
    tokens.push(Token::Start);
    let mut word: Vec<char> = Vec::new();
    let mut state: State = State::OutTag;

    proof {
        assert(hv@.skip(0) =~= hv@);
        assert(tokens_view(tokens@) =~= seq![TokenVal::Start]);
    }

    let mut pos: usize = 0;
    while pos < n
        invariant
            pos <= n,
            n == hv@.len(),
            hv@ == html@,
            tok_scan(
                html@.skip(pos as int),
                TokScan { state: state, word: word@, tokens: tokens_view(tokens@) },
            ) == tok_scan(html@, tok_scan_init()),
        decreases n - pos,
    {
        let ghost g = TokScan { state: state, word: word@, tokens: tokens_view(tokens@) };
        let c = hv[pos];
        proof {
            assert(html@.skip(pos as int)[0] == c);
            assert(html@.skip(pos as int).drop_first() =~= html@.skip(pos + 1));
        }
        if c == '<' {
            let trimmed = trim_chars(&word);
            if trimmed.len() != 0 {
                tokens.push(Token::Text(string_of_chars(&trimmed)));
                word = Vec::new();
                proof {
                    assert(tokens_view(tokens@) =~= g.tokens.push(TokenVal::Text(spec_trim(g.word))));
                }
            }
            state = State::InTag;
        } else if c == '>' {
            if !matches!(state, State::InTag) {
                return None;
            }
            let trimmed = trim_chars(&word);
            if trimmed.len() != 0 {
                let ghost t = spec_trim(g.word);
                let sp = find_space(&trimmed);
                proof {
                    trimmed@.index_of_first_ensures(' ');
                }
                let (tag_name, attr_text): (Vec<char>, Vec<char>) = match sp {
                    Option::Some(ix) => (
                        subvec(&trimmed, 0, ix),
                        subvec(&trimmed, ix + 1, trimmed.len()),
                    ),
                    Option::None => {
                        let whole = subvec(&trimmed, 0, trimmed.len());
                        proof {
                            assert(whole@ =~= t);
                        }
                        (whole, Vec::new())
                    },
                };
                proof {
                    assert((tag_name@, attr_text@) == spec_split_tag(t));
                }
                let attr_string = string_of_chars(&attr_text);
                match try_parse_attributes(attr_string.as_str()) {
                    Option::None => {
                        return None;
                    },
                    Option::Some(attrs) => {
                        let is_closing = tag_name.len() > 0 && tag_name[0] == '/';
                        if is_closing {
                            let stripped = subvec(&tag_name, 1, tag_name.len());
                            proof {
                                assert(stripped@ =~= tag_name@.drop_first());
                            }
                            tokens.push(Token::ClosingTag(string_of_chars(&stripped)));
                        } else {
                            tokens.push(Token::OpeningTag(string_of_chars(&tag_name), attrs));
                        }
                        word = Vec::new();
                        proof {
                            let tok = if tag_name@.len() > 0 && tag_name@[0] == '/' {
                                TokenVal::ClosingTag(tag_name@.drop_first())
                            } else {
                                TokenVal::OpeningTag(tag_name@, attrs_view(attrs@))
                            };
                            assert(tokens_view(tokens@) =~= g.tokens.push(tok));
                        }
                    },
                }
            }
            state = State::OutTag;
        } else {
            word.push(c);
        }
        proof {
            let g2 = TokScan { state: state, word: word@, tokens: tokens_view(tokens@) };
            assert(tok_step(g, c) == Some(g2));
        }
        pos = pos + 1;
    }

    proof {
        assert(html@.skip(n as int) =~= Seq::<char>::empty());
    }
    let ghost g = TokScan { state: state, word: word@, tokens: tokens_view(tokens@) };
    let trimmed = trim_chars(&word);
    if trimmed.len() != 0 {
        tokens.push(Token::Text(string_of_chars(&trimmed)));
        proof {
            assert(tokens_view(tokens@) =~= g.tokens.push(TokenVal::Text(spec_trim(g.word))));
        }
    }
    let ghost mid = tokens_view(tokens@);
    tokens.push(Token::End);
    proof {
        assert(tokens_view(tokens@) =~= mid.push(TokenVal::End));
    }
    Some(tokens)
}

/// Every `Text` token in `ts` has non-empty content with no leading or
/// trailing whitespace.
pub open spec fn texts_trimmed(ts: Seq<TokenVal>) -> bool {
    forall|i: int|
        0 <= i < ts.len() && ts[i] is Text ==> (#[trigger] ts[i])->Text_0.len() > 0 && spec_trim(
            ts[i]->Text_0,
        ) == ts[i]->Text_0
}

proof fn lemma_scan_texts_trimmed(s: Seq<char>, m: TokScan)
    requires
        texts_trimmed(m.tokens),
        tok_scan(s, m) is Some,
    ensures
        texts_trimmed(tok_scan(s, m).unwrap().tokens),
    decreases s.len(),
{
    if s.len() > 0 {
        let m2 = tok_step(m, s[0]).unwrap();
        assert(texts_trimmed(m2.tokens)) by {
            crate::chars::lemma_trim_idempotent(m.word);
        }
        lemma_scan_texts_trimmed(s.drop_first(), m2);
    }
}

/// Whitespace-only text between tags produces no `Text` token: every `Text`
/// token the tokenizer emits has non-empty content that carries no leading
/// or trailing whitespace.
pub proof fn lemma_text_tokens_trimmed(s: Seq<char>)
    requires
        spec_tokenize(s) is Some,
    ensures
        texts_trimmed(spec_tokenize(s).unwrap()),
{
    let m = tok_scan(s, tok_scan_init()).unwrap();
    assert(texts_trimmed(tok_scan_init().tokens));
    lemma_scan_texts_trimmed(s, tok_scan_init());
    crate::chars::lemma_trim_idempotent(m.word);
    let t = spec_trim(m.word);
    let toks = if t.len() > 0 {
        m.tokens.push(TokenVal::Text(t))
    } else {
        m.tokens
    };
    assert(texts_trimmed(toks));
    assert(spec_tokenize(s).unwrap() == toks.push(TokenVal::End));
}

/// Tokenizing is a pure function of its input: two calls on equal text have
/// equal token sequences — no hidden state affects the output.
pub proof fn lemma_tokenize_pure(s1: Seq<char>, s2: Seq<char>)
    requires
        s1 == s2,
    ensures
        spec_tokenize(s1) == spec_tokenize(s2),
{
}

/// Tokenizes markup text, as [`spec_tokenize`] states: the output is the
/// scan's token sequence, framed by `Start` and `End`. The inputs on which
/// the scan has no defined result are excluded by `requires`.
pub fn tokenize(html: String) -> (tokens: Vec<Token>)
    requires
        spec_tokenize(html@) is Some,
    ensures
        Some(tokens_view(tokens@)) == spec_tokenize(html@),
{
    try_tokenize(html.as_str()).unwrap()
}

} // verus!
