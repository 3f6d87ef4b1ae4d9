//! The `Json` entry point: lex a source string, parse it into a value tree,
//! and look keys up in the resulting root mapping.

use crate::lexer::lex_chars;
use crate::lexer::spec_lex;
use crate::parser::parse_object;
use crate::parser::spec_parse;
use crate::parser::TokenStream;
use crate::text::chars_of;
use crate::text::text_eq;
use crate::token::tokens_view;
use crate::token::LexicalToken;
use crate::token::LexicalTokenView;
use crate::token::ParseError;
use crate::token::ParseErrorView;
use crate::token::Token;
use crate::value::entries_view;
use crate::value::lemma_entries_view_index;
use crate::value::lemma_key_index_absent;
use crate::value::lemma_key_index_found;
use crate::value::obj_lookup;
use crate::value::Datum;
use crate::value::DatumView;
use vstd::prelude::*;

verus! {

/// A JSON document. `parse` fills `root` with the document's object — an
/// entry list with unique keys, read as an unordered mapping — on success,
/// and leaves it empty on failure: no partial tree is ever exposed.
pub struct Json {
    pub root: Option<Vec<(String, Datum)>>,
}

impl Json {
    /// The root mapping, viewed as ghost entries.
    pub open spec fn root_view(self) -> Option<Seq<(Seq<char>, DatumView)>> {
        match self.root {
            None => None,
            Some(entries) => Some(entries_view(entries@)),
        }
    }

    /// `self` is the outcome of parsing `src`: the described tree on
    /// success, nothing on failure — exactly what `parse` establishes.
    pub open spec fn parsed_from(self, src: Seq<char>) -> bool {
        match spec_parse(src) {
            Ok(m) => self.root_view() == Some(m),
            Err(_) => self.root_view() is None,
        }
    }

    /// A fresh document with nothing parsed yet.
    pub fn new() -> (r: Json)
        ensures
            r.root_view() is None,
    {
        Json { root: None }
    }

    /// Tokenizes `src` without parsing it: the token sequence `spec_lex`
    /// describes, or the first lexical error.
    pub fn lex(&mut self, src: &str) -> (r: Result<Vec<LexicalToken>, ParseError>)
        ensures
            *final(self) == *old(self),
            match r {
                Ok(toks) => spec_lex(src@) == Ok::<Seq<LexicalTokenView>, ParseErrorView>(
                    tokens_view(toks@),
                ),
                Err(e) => spec_lex(src@) == Err::<Seq<LexicalTokenView>, ParseErrorView>(e@),
            },
    {
        let chars = chars_of(src);
        lex_chars(&chars)
    }

    /// Parses `src`. On success `root` holds the document's root object; on
    /// failure `root` is empty and the error says where the text went wrong.
    /// `spec_parse` decides exactly which of the two happens and what they
    /// hold, for every input.
    pub fn parse(&mut self, src: &str) -> (r: Result<(), ParseError>)
        ensures
            final(self).parsed_from(src@),
            match spec_parse(src@) {
                Ok(_) => r is Ok,
                Err(e) => r matches Err(pe) && pe@ == e,
            },
    {
        self.root = None;
        let chars = chars_of(src);
        let toks = match lex_chars(&chars) {
            Ok(t) => t,
            Err(e) => {
                return Err(e);
            },
        };
        let mut stream = TokenStream::new(toks);
        let first = match stream.pop() {
            None => {
                return Err(ParseError::UnexpectedEof);
            },
            Some(t) => t,
        };
        match first.token {
            Token::OpenCurly => {},
            _ => {
                return Err(ParseError::UnexpectedToken(first));
            },
        }
        let entries = match parse_object(&mut stream) {
            Ok(m) => m,
            Err(e) => {
                return Err(e);
            },
        };
        match stream.pop() {
            Some(t) => {
                return Err(ParseError::UnexpectedToken(t));
            },
            None => {},
        }
        self.root = Some(entries);
        Ok(())
    }

    /// Looks `key` up in the root mapping: the value bound to it, if the
    /// document was parsed and binds the key.
    pub fn get<'a>(&'a self, key: &str) -> (r: Option<&'a Datum>)
        ensures
            match self.root_view() {
                None => r is None,
                Some(entries) => match obj_lookup(entries, key@) {
                    Some(v) => r matches Some(d) && d.model() == v,
                    None => r is None,
                },
            },
    {
        match &self.root {
            None => None,
            Some(entries) => {
                proof {
                    lemma_entries_view_index(entries@);
                }
                let n = entries.len();
                let mut i: usize = 0;
                while i < n
                    invariant
                        i <= n,
                        n == entries@.len(),
                        self.root_view() == Some(entries_view(entries@)),
                        entries_view(entries@).len() == entries@.len(),
                        forall|t: int|
                            0 <= t < entries@.len() ==> #[trigger] entries_view(entries@)[t] == (
                            entries@[t].0@,
                            entries@[t].1.model(),
                            ),
                        forall|t: int|
                            0 <= t < i ==> (#[trigger] entries_view(entries@)[t]).0 != key@,
                    decreases n - i,
                {
                    let pair = &entries[i];
                    if text_eq(&pair.0, key) {
                        proof {
                            lemma_key_index_found(entries_view(entries@), key@, i as int);
                        }
                        return Some(&pair.1);
                    }
                    i = i + 1;
                }
                proof {
                    lemma_key_index_absent(entries_view(entries@), key@);
                }
                None
            },
        }
    }
}

} // verus!
