//! The closed set of request methods and its mapping to and from wire tokens.
use vstd::prelude::*;
use crate::text::chars_of;

verus! {

/// A request method; anything outside this set is refused by the parser.
#[allow(non_camel_case_types)]
#[derive(Clone, Copy, Debug, PartialEq, Eq, Structural)]
pub enum HTTPMethod {
    GET,
    POST,
    DELETE,
    HEAD,
    PUT,
    PATCH,
    OPTIONS,
}

/// The canonical (upper-case) wire token of a method.
pub open spec fn method_name(m: HTTPMethod) -> Seq<char> {
    match m {
        HTTPMethod::GET => seq!['G', 'E', 'T'],
        HTTPMethod::POST => seq!['P', 'O', 'S', 'T'],
        HTTPMethod::DELETE => seq!['D', 'E', 'L', 'E', 'T', 'E'],
        HTTPMethod::HEAD => seq!['H', 'E', 'A', 'D'],
        HTTPMethod::PUT => seq!['P', 'U', 'T'],
        HTTPMethod::PATCH => seq!['P', 'A', 'T', 'C', 'H'],
        HTTPMethod::OPTIONS => seq!['O', 'P', 'T', 'I', 'O', 'N', 'S'],
    }
}

/// `c` is the upper-case ASCII letter `u` or its lower-case form.
pub open spec fn same_letter(c: char, u: char) -> bool {
    c == u || c as u32 == u as u32 + 32
}

/// `tok` spells `name` (upper-case ASCII letters) in any mix of cases.
pub open spec fn token_spells(tok: Seq<char>, name: Seq<char>) -> bool {
    tok.len() == name.len() && forall|i: int| 0 <= i < tok.len() ==> same_letter(tok[i], name[i])
}

/// The method that a request-line token names, matched case-insensitively.
pub open spec fn method_of(tok: Seq<char>) -> Option<HTTPMethod> {
    if token_spells(tok, method_name(HTTPMethod::GET)) {
        Some(HTTPMethod::GET)
    } else if token_spells(tok, method_name(HTTPMethod::POST)) {
        Some(HTTPMethod::POST)
    } else if token_spells(tok, method_name(HTTPMethod::DELETE)) {
        Some(HTTPMethod::DELETE)
    } else if token_spells(tok, method_name(HTTPMethod::HEAD)) {
        Some(HTTPMethod::HEAD)
    } else if token_spells(tok, method_name(HTTPMethod::PUT)) {
        Some(HTTPMethod::PUT)
    } else if token_spells(tok, method_name(HTTPMethod::PATCH)) {
        Some(HTTPMethod::PATCH)
    } else if token_spells(tok, method_name(HTTPMethod::OPTIONS)) {
        Some(HTTPMethod::OPTIONS)
    } else {
        None
    }
}

/// A method's canonical name parses back to that method.
pub proof fn lemma_method_name_round_trip(m: HTTPMethod)
    ensures
        method_of(method_name(m)) == Some(m),
{
    let n = method_name(m);
    assert(token_spells(n, n));
    match m {
        HTTPMethod::GET => {},
        HTTPMethod::POST => {
            assert(!token_spells(n, method_name(HTTPMethod::GET))) by {
                assert(!same_letter(n[0], 'G'));
            }
        },
        HTTPMethod::DELETE => {},
        HTTPMethod::HEAD => {},
        HTTPMethod::PUT => {
            assert(!same_letter(n[1], 'O'));
            assert(!token_spells(n, method_name(HTTPMethod::GET))) by {
                assert(!same_letter(n[0], 'G'));
            }
        },
        HTTPMethod::PATCH => {
            assert(!same_letter(n[1], 'O'));
        },
        HTTPMethod::OPTIONS => {},
    }
}

fn name_chars(m: HTTPMethod) -> (r: Vec<char>)
    ensures
        r@ == method_name(m),
{
    let v = match m {
        HTTPMethod::GET => vec!['G', 'E', 'T'],
        HTTPMethod::POST => vec!['P', 'O', 'S', 'T'],
        HTTPMethod::DELETE => vec!['D', 'E', 'L', 'E', 'T', 'E'],
        HTTPMethod::HEAD => vec!['H', 'E', 'A', 'D'],
        HTTPMethod::PUT => vec!['P', 'U', 'T'],
        HTTPMethod::PATCH => vec!['P', 'A', 'T', 'C', 'H'],
        HTTPMethod::OPTIONS => vec!['O', 'P', 'T', 'I', 'O', 'N', 'S'],
    };
    assert(v@ =~= method_name(m));
    v
}

fn spells(tok: &Vec<char>, m: HTTPMethod) -> (r: bool)
    ensures
        r == token_spells(tok@, method_name(m)),
{
    let name = name_chars(m);
    if tok.len() != name.len() {
        return false;
    }
    let mut i: usize = 0;
    while i < tok.len()
        invariant
            i <= tok.len() == name.len(),
            name@ == method_name(m),
            forall|j: int| 0 <= j < i ==> same_letter(tok@[j], name@[j]),
        decreases tok.len() - i,
    {
        let c = tok[i];
        let u = name[i];
        if !(c == u || (u as u32) + 32 == c as u32) {
            return false;
        }
        i = i + 1;
    }
    true
}

impl HTTPMethod {
    /// Reads a method token, in any mix of cases; `Err(())` for a token
    /// outside the enumerated set.
    pub fn from_str(s: &str) -> (r: Result<HTTPMethod, ()>)
        ensures
            r == (match method_of(s@) {
                Some(m) => Ok(m),
                None => Err(()),
            }),
    {
        let t = chars_of(s);
        if spells(&t, HTTPMethod::GET) {
            Ok(HTTPMethod::GET)
        } else if spells(&t, HTTPMethod::POST) {
            Ok(HTTPMethod::POST)
        } else if spells(&t, HTTPMethod::DELETE) {
            Ok(HTTPMethod::DELETE)
        } else if spells(&t, HTTPMethod::HEAD) {
            Ok(HTTPMethod::HEAD)
        } else if spells(&t, HTTPMethod::PUT) {
            Ok(HTTPMethod::PUT)
        } else if spells(&t, HTTPMethod::PATCH) {
            Ok(HTTPMethod::PATCH)
        } else if spells(&t, HTTPMethod::OPTIONS) {
            Ok(HTTPMethod::OPTIONS)
        } else {
            Err(())
        }
    }

    /// The canonical wire token of this method.
    pub fn as_str(&self) -> (r: &'static str)
        ensures
            r@ == method_name(*self),
    {
        match self {
            HTTPMethod::GET => {
                let s = "GET";
                proof {
                    reveal_strlit("GET");
                }
                assert(s@ =~= method_name(*self));
                s
            },
            HTTPMethod::POST => {
                let s = "POST";
                proof {
                    reveal_strlit("POST");
                }
                assert(s@ =~= method_name(*self));
                s
            },
            HTTPMethod::DELETE => {
                let s = "DELETE";
                proof {
                    reveal_strlit("DELETE");
                }
                assert(s@ =~= method_name(*self));
                s
            },
            HTTPMethod::HEAD => {
                let s = "HEAD";
                proof {
                    reveal_strlit("HEAD");
                }
                assert(s@ =~= method_name(*self));
                s
            },
            HTTPMethod::PUT => {
                let s = "PUT";
                proof {
                    reveal_strlit("PUT");
                }
                assert(s@ =~= method_name(*self));
                s
            },
            HTTPMethod::PATCH => {
                let s = "PATCH";
                proof {
                    reveal_strlit("PATCH");
                }
                assert(s@ =~= method_name(*self));
                s
            },
            HTTPMethod::OPTIONS => {
                let s = "OPTIONS";
                proof {
                    reveal_strlit("OPTIONS");
                }
                assert(s@ =~= method_name(*self));
                s
            },
        }
    }
}

} // verus!
