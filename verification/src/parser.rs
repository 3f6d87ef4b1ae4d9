//! The parser: a mathematical description of recursive descent over token
//! sequences, and a verified parser producing exactly the described tree.
//!
//! A document's root must be an object. Inside an object or array body the
//! parser is driven by a small phase machine; running out of tokens in any
//! phase is `UnexpectedEof`, and any token the phase does not allow is
//! `UnexpectedToken`.

use crate::lexer::spec_lex;
use crate::text::text_eq;
use crate::token::tokens_view;
use crate::token::LexicalToken;
use crate::token::LexicalTokenView;
use crate::token::ParseError;
use crate::token::ParseErrorView;
use crate::token::Token;
use crate::token::TokenView;
use crate::value::entries_view;
use crate::value::insert_entry;
use crate::value::items_view;
use crate::value::lemma_items_view_push;
use crate::value::obj_insert;
use crate::value::Datum;
use crate::value::DatumView;
use vstd::prelude::*;

verus! {

/// Where the parser stands inside one object or array body.
///
/// Objects move through `FindKeyOrEnd`/`FindKey` (a key, or `}` where one is
/// allowed), `FindColon`, `FindValue` and `FindCommaOrEnd`; arrays use only
/// `FindValue` and `FindCommaOrEnd`.
#[derive(Clone, Copy)]
pub enum ParsePhase {
    FindKey,
    FindKeyOrEnd,
    FindColon,
    FindValue,
    FindCommaOrEnd,
}

/// The pending object key, viewed.
pub open spec fn key_view(k: Option<String>) -> Option<Seq<char>> {
    match k {
        None => None,
        Some(s) => Some(s@),
    }
}

/// Parses one value standing at the front of `ts`: the resulting value and
/// the tokens left over, or the first structural error.
pub open spec fn spec_parse_value(ts: Seq<LexicalTokenView>) -> Result<
    (DatumView, Seq<LexicalTokenView>),
    ParseErrorView,
>
    decreases ts.len(), 0int,
{
    if ts.len() == 0 {
        Err(ParseErrorView::UnexpectedEof)
    } else {
        let t = ts[0];
        let rest = ts.drop_first();
        match t.token {
            TokenView::OpenCurly => match spec_parse_object(
                rest,
                ParsePhase::FindKeyOrEnd,
                None,
                Seq::empty(),
            ) {
                Ok((m, rest2)) => Ok((DatumView::Object(m), rest2)),
                Err(e) => Err(e),
            },
            TokenView::OpenSquare => match spec_parse_array(rest) {
                Ok((items, rest2)) => Ok((DatumView::Array(items), rest2)),
                Err(e) => Err(e),
            },
            TokenView::String(s) => Ok((DatumView::Str(s), rest)),
            TokenView::Identifier(id) => if id == "true"@ {
                Ok((DatumView::Boolean(true), rest))
            } else if id == "false"@ {
                Ok((DatumView::Boolean(false), rest))
            } else if id == "null"@ {
                Ok((DatumView::Null, rest))
            } else {
                Err(ParseErrorView::UnexpectedToken(t))
            },
            TokenView::Number(x) => Ok((DatumView::Number(x), rest)),
            _ => Err(ParseErrorView::UnexpectedToken(t)),
        }
    }
}

/// Parses an object body (the tokens after `{`), phase by phase: `acc` holds
/// the entries built so far and `key` the pending key, if one was read.
pub open spec fn spec_parse_object(
    ts: Seq<LexicalTokenView>,
    phase: ParsePhase,
    key: Option<Seq<char>>,
    acc: Seq<(Seq<char>, DatumView)>,
) -> Result<(Seq<(Seq<char>, DatumView)>, Seq<LexicalTokenView>), ParseErrorView>
    decreases ts.len(), 1int,
{
    match phase {
        ParsePhase::FindKeyOrEnd => {
            if ts.len() == 0 {
                Err(ParseErrorView::UnexpectedEof)
            } else {
                let t = ts[0];
                let rest = ts.drop_first();
                match t.token {
                    TokenView::CloseCurly => Ok((acc, rest)),
                    TokenView::String(k) => spec_parse_object(
                        rest,
                        ParsePhase::FindColon,
                        Some(k),
                        acc,
                    ),
                    _ => Err(ParseErrorView::UnexpectedToken(t)),
                }
            }
        },
        ParsePhase::FindKey => {
            if ts.len() == 0 {
                Err(ParseErrorView::UnexpectedEof)
            } else {
                let t = ts[0];
                let rest = ts.drop_first();
                match t.token {
                    TokenView::String(k) => spec_parse_object(
                        rest,
                        ParsePhase::FindColon,
                        Some(k),
                        acc,
                    ),
                    _ => Err(ParseErrorView::UnexpectedToken(t)),
                }
            }
        },
        ParsePhase::FindColon => {
            if ts.len() == 0 {
                Err(ParseErrorView::UnexpectedEof)
            } else {
                let t = ts[0];
                let rest = ts.drop_first();
                match t.token {
                    TokenView::Colon => spec_parse_object(rest, ParsePhase::FindValue, key, acc),
                    _ => Err(ParseErrorView::UnexpectedToken(t)),
                }
            }
        },
        ParsePhase::FindValue => {
            match spec_parse_value(ts) {
                Ok((v, rest2)) => if rest2.len() < ts.len() {
                    spec_parse_object(
                        rest2,
                        ParsePhase::FindCommaOrEnd,
                        None,
                        obj_insert(acc, key->0, v),
                    )
                } else {
                    // parsing a value always consumes a token
                    // (`lemma_parse_value_consumes`), so this arm never holds
                    Err(ParseErrorView::UnexpectedEof)
                },
                Err(e) => Err(e),
            }
        },
        ParsePhase::FindCommaOrEnd => {
            if ts.len() == 0 {
                Err(ParseErrorView::UnexpectedEof)
            } else {
                let t = ts[0];
                let rest = ts.drop_first();
                match t.token {
                    TokenView::Comma => spec_parse_object(rest, ParsePhase::FindKey, None, acc),
                    TokenView::CloseCurly => Ok((acc, rest)),
                    _ => Err(ParseErrorView::UnexpectedToken(t)),
                }
            }
        },
    }
}

/// Parses an array body (the tokens after `[`). A `]` standing as the very
/// first token closes an empty array; afterwards values and commas alternate.
pub open spec fn spec_parse_array(ts: Seq<LexicalTokenView>) -> Result<
    (Seq<DatumView>, Seq<LexicalTokenView>),
    ParseErrorView,
>
    decreases ts.len(), 2int,
{
    if ts.len() > 0 && ts[0].token is CloseSquare {
        Ok((Seq::empty(), ts.drop_first()))
    } else {
        spec_parse_array_body(ts, ParsePhase::FindValue, Seq::empty())
    }
}

/// The array phase machine: only `FindValue` and `FindCommaOrEnd` drive it.
pub open spec fn spec_parse_array_body(
    ts: Seq<LexicalTokenView>,
    phase: ParsePhase,
    acc: Seq<DatumView>,
) -> Result<(Seq<DatumView>, Seq<LexicalTokenView>), ParseErrorView>
    decreases ts.len(), 1int,
{
    match phase {
        ParsePhase::FindValue => {
            match spec_parse_value(ts) {
                Ok((v, rest2)) => if rest2.len() < ts.len() {
                    spec_parse_array_body(rest2, ParsePhase::FindCommaOrEnd, acc.push(v))
                } else {
                    // dead for the same reason as in the object machine
                    Err(ParseErrorView::UnexpectedEof)
                },
                Err(e) => Err(e),
            }
        },
        ParsePhase::FindCommaOrEnd => {
            if ts.len() == 0 {
                Err(ParseErrorView::UnexpectedEof)
            } else {
                let t = ts[0];
                let rest = ts.drop_first();
                match t.token {
                    TokenView::CloseSquare => Ok((acc, rest)),
                    TokenView::Comma => spec_parse_array_body(rest, ParsePhase::FindValue, acc),
                    _ => Err(ParseErrorView::UnexpectedToken(t)),
                }
            }
        },
        // an array body never stands in a key phase
        _ => Err(ParseErrorView::UnexpectedEof),
    }
}

/// The value tree of a whole source text: lex it fully, then require a root
/// object and, after it, a drained token stream.
pub open spec fn spec_parse(src: Seq<char>) -> Result<
    Seq<(Seq<char>, DatumView)>,
    ParseErrorView,
> {
    match spec_lex(src) {
        Err(e) => Err(e),
        Ok(ts) => {
            if ts.len() == 0 {
                Err(ParseErrorView::UnexpectedEof)
            } else if !(ts[0].token is OpenCurly) {
                Err(ParseErrorView::UnexpectedToken(ts[0]))
            } else {
                match spec_parse_object(
                    ts.drop_first(),
                    ParsePhase::FindKeyOrEnd,
                    None,
                    Seq::empty(),
                ) {
                    Ok((m, rest)) => if rest.len() == 0 {
                        Ok(m)
                    } else {
                        Err(ParseErrorView::UnexpectedToken(rest[0]))
                    },
                    Err(e) => Err(e),
                }
            }
        },
    }
}

/// Parsing a value consumes at least one token.
pub proof fn lemma_parse_value_consumes(ts: Seq<LexicalTokenView>)
    ensures
        spec_parse_value(ts) matches Ok(p) ==> p.1.len() < ts.len(),
    decreases ts.len(), 0int,
{
    if ts.len() > 0 {
        let rest = ts.drop_first();
        match ts[0].token {
            TokenView::OpenCurly => {
                lemma_parse_object_consumes(rest, ParsePhase::FindKeyOrEnd, None, Seq::empty());
            },
            TokenView::OpenSquare => {
                lemma_parse_array_consumes(rest);
            },
            _ => {},
        }
    }
}

/// The object machine never returns more tokens than it was given, and
/// consumes at least the closing brace.
pub proof fn lemma_parse_object_consumes(
    ts: Seq<LexicalTokenView>,
    phase: ParsePhase,
    key: Option<Seq<char>>,
    acc: Seq<(Seq<char>, DatumView)>,
)
    ensures
        spec_parse_object(ts, phase, key, acc) matches Ok(p) ==> p.1.len() < ts.len(),
    decreases ts.len(), 1int,
{
    let rest = ts.drop_first();
    match phase {
        ParsePhase::FindKeyOrEnd | ParsePhase::FindKey => {
            if ts.len() > 0 {
                match ts[0].token {
                    TokenView::String(k) => {
                        lemma_parse_object_consumes(rest, ParsePhase::FindColon, Some(k), acc);
                    },
                    _ => {},
                }
            }
        },
        ParsePhase::FindColon => {
            if ts.len() > 0 && ts[0].token is Colon {
                lemma_parse_object_consumes(rest, ParsePhase::FindValue, key, acc);
            }
        },
        ParsePhase::FindValue => {
            lemma_parse_value_consumes(ts);
            match spec_parse_value(ts) {
                Ok(p) => {
                    lemma_parse_object_consumes(
                        p.1,
                        ParsePhase::FindCommaOrEnd,
                        None,
                        obj_insert(acc, key->0, p.0),
                    );
                },
                Err(_) => {},
            }
        },
        ParsePhase::FindCommaOrEnd => {
            if ts.len() > 0 && ts[0].token is Comma {
                lemma_parse_object_consumes(rest, ParsePhase::FindKey, None, acc);
            }
        },
    }
}

/// The array machine consumes at least the closing bracket.
pub proof fn lemma_parse_array_consumes(ts: Seq<LexicalTokenView>)
    ensures
        spec_parse_array(ts) matches Ok(p) ==> p.1.len() < ts.len(),
    decreases ts.len(), 2int,
{
    if !(ts.len() > 0 && ts[0].token is CloseSquare) {
        lemma_parse_array_body_consumes(ts, ParsePhase::FindValue, Seq::empty());
    }
}

/// The ordered token sequence one `parse` call consumes, front to back:
/// peek at the front, pop from the front, test for emptiness.
pub struct TokenStream {
    toks: Vec<LexicalToken>,
}

impl TokenStream {
    /// The tokens not yet consumed.
    pub closed spec fn remaining(self) -> Seq<LexicalTokenView> {
        tokens_view(self.toks@)
    }

    /// A stream holding all of `toks`, none consumed yet.
    pub fn new(toks: Vec<LexicalToken>) -> (r: TokenStream)
        ensures
            r.remaining() == tokens_view(toks@),
    {
        TokenStream { toks }
    }

    /// Whether any tokens are left.
    pub fn is_empty(&self) -> (r: bool)
        ensures
            r == (self.remaining().len() == 0),
    {
        self.toks.len() == 0
    }

    /// The front token, left in place.
    pub fn peek(&self) -> (r: Option<&LexicalToken>)
        ensures
            match r {
                None => self.remaining().len() == 0,
                Some(t) => self.remaining().len() > 0 && t@ == self.remaining()[0],
            },
    {
        if self.toks.len() > 0 {
            Some(&self.toks[0])
        } else {
            None
        }
    }

    /// Removes and returns the front token, if any.
    pub fn pop(&mut self) -> (r: Option<LexicalToken>)
        ensures
            match r {
                None => old(self).remaining().len() == 0 && final(self).remaining() == old(
                    self,
                ).remaining(),
                Some(t) => old(self).remaining().len() > 0 && t@ == old(self).remaining()[0]
                    && final(self).remaining() == old(self).remaining().drop_first(),
            },
    {
        if self.toks.len() > 0 {
            let t = self.toks.remove(0);
            proof {
                assert(tokens_view(self.toks@) =~= tokens_view(old(self).toks@).drop_first());
            }
            Some(t)
        } else {
            None
        }
    }
}

/// As `lemma_parse_array_consumes`, for the body machine.
pub proof fn lemma_parse_array_body_consumes(
    ts: Seq<LexicalTokenView>,
    phase: ParsePhase,
    acc: Seq<DatumView>,
)
    ensures
        spec_parse_array_body(ts, phase, acc) matches Ok(p) ==> p.1.len() < ts.len(),
    decreases ts.len(), 1int,
{
    match phase {
        ParsePhase::FindValue => {
            lemma_parse_value_consumes(ts);
            match spec_parse_value(ts) {
                Ok(p) => {
                    lemma_parse_array_body_consumes(p.1, ParsePhase::FindCommaOrEnd, acc.push(p.0));
                },
                Err(_) => {},
            }
        },
        ParsePhase::FindCommaOrEnd => {
            if ts.len() > 0 && ts[0].token is Comma {
                lemma_parse_array_body_consumes(ts.drop_first(), ParsePhase::FindValue, acc);
            }
        },
        _ => {},
    }
}

/// Parses one value from the front of the stream, exactly as
/// `spec_parse_value` describes.
pub fn parse_value(s: &mut TokenStream) -> (r: Result<Datum, ParseError>)
    ensures
        match spec_parse_value(old(s).remaining()) {
            Ok(p) => r matches Ok(d) && d.model() == p.0 && final(s).remaining() == p.1,
            Err(e) => r matches Err(pe) && pe@ == e,
        },
    decreases old(s).remaining().len(), 0int,
{
    let t = match s.pop() {
        None => {
            return Err(ParseError::UnexpectedEof);
        },
        Some(t) => t,
    };
    match t.token {
        Token::OpenCurly => match parse_object(s) {
            Ok(entries) => Ok(Datum::Object(entries)),
            Err(e) => Err(e),
        },
        Token::OpenSquare => match parse_array(s) {
            Ok(items) => Ok(Datum::Array(items)),
            Err(e) => Err(e),
        },
        Token::String(text) => Ok(Datum::Str(text)),
        Token::Identifier(id) => {
            if text_eq(&id, "true") {
                Ok(Datum::Boolean(true))
            } else if text_eq(&id, "false") {
                Ok(Datum::Boolean(false))
            } else if text_eq(&id, "null") {
                Ok(Datum::Null)
            } else {
                Err(
                    ParseError::UnexpectedToken(
                        LexicalToken { token: Token::Identifier(id), from: t.from, to: t.to },
                    ),
                )
            }
        },
        Token::Number(text) => Ok(Datum::Number(text)),
        _ => Err(ParseError::UnexpectedToken(t)),
    }
}

/// Parses an object body (the stream standing right after `{`), exactly as
/// `spec_parse_object` describes from the starting phase.
pub fn parse_object(s: &mut TokenStream) -> (r: Result<Vec<(String, Datum)>, ParseError>)
    ensures
        match spec_parse_object(old(s).remaining(), ParsePhase::FindKeyOrEnd, None, Seq::empty()) {
            Ok(p) => r matches Ok(entries) && entries_view(entries@) == p.0 && final(s).remaining()
                == p.1,
            Err(e) => r matches Err(pe) && pe@ == e,
        },
    decreases old(s).remaining().len(), 1int,
{
    let mut acc: Vec<(String, Datum)> = Vec::new();
    let mut phase = ParsePhase::FindKeyOrEnd;
    let mut key: Option<String> = None;
    proof {
        assert(entries_view(acc@) =~= Seq::<(Seq<char>, DatumView)>::empty());
    }
    loop
        invariant
            s.remaining().len() <= old(s).remaining().len(),
            phase is FindColon || phase is FindValue ==> key is Some,
            phase is FindKeyOrEnd || phase is FindKey || phase is FindCommaOrEnd ==> key is None,
            spec_parse_object(old(s).remaining(), ParsePhase::FindKeyOrEnd, None, Seq::empty())
                == spec_parse_object(s.remaining(), phase, key_view(key), entries_view(acc@)),
        decreases s.remaining().len(),
    {
        let ghost pre_toks = s.remaining();
        let ghost pre_phase = phase;
        let ghost pre_key = key_view(key);
        let ghost pre_acc = entries_view(acc@);
        match phase {
            ParsePhase::FindValue => {
                proof {
                    lemma_parse_value_consumes(pre_toks);
                }
                match parse_value(s) {
                    Err(e) => {
                        return Err(e);
                    },
                    Ok(v) => {
                        let ghost vm = v.model();
                        let k = match key {
                            Some(k) => k,
                            None => vstd::pervasive::unreached(),
                        };
                        let ghost km = k@;
                        insert_entry(&mut acc, k, v);
                        key = None;
                        phase = ParsePhase::FindCommaOrEnd;
                        proof {
                            assert(spec_parse_object(pre_toks, pre_phase, pre_key, pre_acc)
                                == spec_parse_object(
                                s.remaining(),
                                phase,
                                key_view(key),
                                obj_insert(pre_acc, km, vm),
                            ));
                        }
                    },
                }
            },
            _ => {
                let t = match s.pop() {
                    None => {
                        return Err(ParseError::UnexpectedEof);
                    },
                    Some(t) => t,
                };
                match phase {
                    ParsePhase::FindKeyOrEnd => {
                        match t.token {
                            Token::CloseCurly => {
                                return Ok(acc);
                            },
                            Token::String(k) => {
                                key = Some(k);
                                phase = ParsePhase::FindColon;
                            },
                            _ => {
                                return Err(ParseError::UnexpectedToken(t));
                            },
                        }
                    },
                    ParsePhase::FindKey => {
                        match t.token {
                            Token::String(k) => {
                                key = Some(k);
                                phase = ParsePhase::FindColon;
                            },
                            _ => {
                                return Err(ParseError::UnexpectedToken(t));
                            },
                        }
                    },
                    ParsePhase::FindColon => {
                        match t.token {
                            Token::Colon => {
                                phase = ParsePhase::FindValue;
                            },
                            _ => {
                                return Err(ParseError::UnexpectedToken(t));
                            },
                        }
                    },
                    ParsePhase::FindCommaOrEnd => {
                        match t.token {
                            Token::Comma => {
                                key = None;
                                phase = ParsePhase::FindKey;
                            },
                            Token::CloseCurly => {
                                return Ok(acc);
                            },
                            _ => {
                                return Err(ParseError::UnexpectedToken(t));
                            },
                        }
                    },
                    ParsePhase::FindValue => {
                        vstd::pervasive::unreached()
                    },
                }
            },
        }
    }
}

/// Parses an array body (the stream standing right after `[`), exactly as
/// `spec_parse_array` describes.
pub fn parse_array(s: &mut TokenStream) -> (r: Result<Vec<Datum>, ParseError>)
    ensures
        match spec_parse_array(old(s).remaining()) {
            Ok(p) => r matches Ok(items) && items_view(items@) == p.0 && final(s).remaining()
                == p.1,
            Err(e) => r matches Err(pe) && pe@ == e,
        },
    decreases old(s).remaining().len(), 2int,
{
    let mut acc: Vec<Datum> = Vec::new();
    proof {
        assert(items_view(acc@) =~= Seq::<DatumView>::empty());
    }
    let first_close = match s.peek() {
        Some(t) => matches!(&t.token, Token::CloseSquare),
        None => false,
    };
    if first_close {
        let _ = s.pop();
        return Ok(acc);
    }
    let mut phase = ParsePhase::FindValue;
    loop
        invariant
            s.remaining().len() <= old(s).remaining().len(),
            phase is FindValue || phase is FindCommaOrEnd,
            spec_parse_array(old(s).remaining()) == spec_parse_array_body(
                s.remaining(),
                phase,
                items_view(acc@),
            ),
        decreases s.remaining().len(),
    {
        let ghost pre_toks = s.remaining();
        match phase {
            ParsePhase::FindValue => {
                proof {
                    lemma_parse_value_consumes(pre_toks);
                }
                match parse_value(s) {
                    Err(e) => {
                        return Err(e);
                    },
                    Ok(v) => {
                        proof {
                            lemma_items_view_push(acc@, v);
                        }
                        acc.push(v);
                        phase = ParsePhase::FindCommaOrEnd;
                    },
                }
            },
            ParsePhase::FindCommaOrEnd => {
                let t = match s.pop() {
                    None => {
                        return Err(ParseError::UnexpectedEof);
                    },
                    Some(t) => t,
                };
                match t.token {
                    Token::CloseSquare => {
                        return Ok(acc);
                    },
                    Token::Comma => {
                        phase = ParsePhase::FindValue;
                    },
                    _ => {
                        return Err(ParseError::UnexpectedToken(t));
                    },
                }
            },
            _ => {
                vstd::pervasive::unreached()
            },
        }
    }
}

} // verus!
