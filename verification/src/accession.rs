//! Classification of one raw input line into a typed accession.
//!
//! A line holds an accession code and, optionally, one display name, separated
//! by whitespace. The first three characters of the code, compared
//! case-insensitively, decide the variant: `srx` (experiment), `srr` (run) or
//! `gsm` (sample).

use vstd::prelude::*;

verus! {

/// Why a line could not be classified.
#[derive(Debug, Clone, Copy, PartialEq, Eq, Structural)]
pub enum ParseError {
    /// The line holds no token at all.
    EmptyInput,
    /// The line holds more than two tokens (a name cannot contain whitespace).
    TooManyFields,
    /// The first three characters of the code are not a recognized prefix.
    UnknownPrefix,
}

/// The characters the tokenizer treats as separating whitespace: the Unicode
/// `White_Space` set, as the standard library's `char::is_whitespace`
/// documents it.
pub open spec fn is_space(c: char) -> bool {
    ||| c == ' '
    ||| c == '\t'
    ||| c == '\n'
    ||| c == '\u{b}'
    ||| c == '\u{c}'
    ||| c == '\r'
    ||| c == '\u{85}'
    ||| c == '\u{a0}'
    ||| c == '\u{1680}'
    ||| ('\u{2000}' <= c && c <= '\u{200a}')
    ||| c == '\u{2028}'
    ||| c == '\u{2029}'
    ||| c == '\u{202f}'
    ||| c == '\u{205f}'
    ||| c == '\u{3000}'
}

/// The tokens of `s` from position `i` on, with `cur` the token read so far.
pub open spec fn tokens_acc(s: Seq<char>, i: int, cur: Seq<char>) -> Seq<Seq<char>>
    decreases s.len() - i,
{
    if i < 0 || i >= s.len() {
        if cur.len() == 0 {
            Seq::empty()
        } else {
            seq![cur]
        }
    } else if is_space(s[i]) {
        if cur.len() == 0 {
            tokens_acc(s, i + 1, Seq::empty())
        } else {
            seq![cur] + tokens_acc(s, i + 1, Seq::empty())
        }
    } else {
        tokens_acc(s, i + 1, cur.push(s[i]))
    }
}

/// The whitespace-separated tokens of `s`, in order.
pub open spec fn spec_tokens(s: Seq<char>) -> Seq<Seq<char>> {
    tokens_acc(s, 0, Seq::empty())
}

fn is_space_exec(c: char) -> (r: bool)
    ensures
        r == is_space(c),
{
    c == ' ' || c == '\t' || c == '\n' || c == '\u{b}' || c == '\u{c}' || c == '\r'
        || c == '\u{85}' || c == '\u{a0}' || c == '\u{1680}' || ('\u{2000}' <= c && c
        <= '\u{200a}') || c == '\u{2028}' || c == '\u{2029}' || c == '\u{202f}' || c == '\u{205f}'
        || c == '\u{3000}'
}

/// Splits `s` on runs of whitespace.
pub fn tokenize(s: &str) -> (r: Vec<String>)
    ensures
        r@.map_values(|t: String| t@) == spec_tokens(s@),
{
    let n = s.unicode_len();
    let mut toks: Vec<String> = Vec::new();
    let mut start: usize = 0;
    let mut i: usize = 0;
    proof {
        assert(toks@.map_values(|t: String| t@) =~= Seq::<Seq<char>>::empty());
        assert(s@.subrange(0, 0) =~= Seq::<char>::empty());
    }
    while i < n
        invariant
            n == s@.len(),
            i <= n,
            start <= i,
            toks@.map_values(|t: String| t@) + tokens_acc(
                s@,
                i as int,
                s@.subrange(start as int, i as int),
            ) == spec_tokens(s@),
        decreases n - i,
    {
        let ghost cur = s@.subrange(start as int, i as int);
        let c = s.get_char(i);
        if is_space_exec(c) {
            if start < i {
                let tok = s.substring_char(start, i).to_owned();
                let ghost old_toks = toks@;
                toks.push(tok);
                proof {
                    assert(toks@.map_values(|t: String| t@) =~= old_toks.map_values(
                        |t: String| t@,
                    ).push(cur));
                    assert(old_toks.map_values(|t: String| t@).push(cur) =~= old_toks.map_values(
                        |t: String| t@,
                    ) + seq![cur]);
                }
            }
            start = i + 1;
            proof {
                assert(s@.subrange(start as int, (i + 1) as int) =~= Seq::<char>::empty());
            }
        } else {
            proof {
                assert(s@.subrange(start as int, (i + 1) as int) =~= cur.push(s@[i as int]));
            }
        }
        i = i + 1;
    }
    if start < n {
        let tok = s.substring_char(start, n).to_owned();
        let ghost old_toks = toks@;
        let ghost cur = s@.subrange(start as int, n as int);
        toks.push(tok);
        proof {
            assert(toks@.map_values(|t: String| t@) =~= old_toks.map_values(|t: String| t@) + seq![
                cur,
            ]);
        }
    }
    toks
}

/// Whether `c` is `lo` or its upper-case counterpart.
pub open spec fn eq_ci(c: char, lo: char, up: char) -> bool {
    c == lo || c == up
}

/// The code starts, case-insensitively, with the experiment prefix `srx`.
pub open spec fn has_srx_prefix(code: Seq<char>) -> bool {
    code.len() >= 3 && eq_ci(code[0], 's', 'S') && eq_ci(code[1], 'r', 'R') && eq_ci(
        code[2],
        'x',
        'X',
    )
}

/// The code starts, case-insensitively, with the run prefix `srr`.
pub open spec fn has_srr_prefix(code: Seq<char>) -> bool {
    code.len() >= 3 && eq_ci(code[0], 's', 'S') && eq_ci(code[1], 'r', 'R') && eq_ci(
        code[2],
        'r',
        'R',
    )
}

/// The code starts, case-insensitively, with the sample prefix `gsm`.
pub open spec fn has_gsm_prefix(code: Seq<char>) -> bool {
    code.len() >= 3 && eq_ci(code[0], 'g', 'G') && eq_ci(code[1], 's', 'S') && eq_ci(
        code[2],
        'm',
        'M',
    )
}

/// The code starts with one of the three recognized prefixes.
pub open spec fn has_recognized_prefix(code: Seq<char>) -> bool {
    has_srx_prefix(code) || has_srr_prefix(code) || has_gsm_prefix(code)
}

/// An experiment accession.
#[derive(Debug, Clone)]
pub struct Srx {
    /// The exact input token, case as given.
    pub acc: String,
    /// The caller-supplied label, if one was given.
    pub name: Option<String>,
}

/// A run accession.
#[derive(Debug, Clone)]
pub struct Srr {
    /// The exact input token, case as given.
    pub acc: String,
    /// The caller-supplied label, if one was given.
    pub name: Option<String>,
}

/// A sample accession.
#[derive(Debug, Clone)]
pub struct Gsm {
    /// The exact input token, case as given.
    pub acc: String,
    /// The caller-supplied label, if one was given.
    pub name: Option<String>,
}

/// A classified accession: the variant tag follows from the code's prefix.
#[derive(Debug, Clone)]
pub enum AccessionCodes {
    /// An experiment accession (`srx` prefix).
    Srx(Srx),
    /// A run accession (`srr` prefix).
    Srr(Srr),
    /// A sample accession (`gsm` prefix).
    Gsm(Gsm),
}

impl AccessionCodes {
    /// The accession code exactly as it stood in the input.
    pub open spec fn spec_orig(&self) -> Seq<char> {
        match self {
            AccessionCodes::Srx(a) => a.acc@,
            AccessionCodes::Srr(a) => a.acc@,
            AccessionCodes::Gsm(a) => a.acc@,
        }
    }

    /// The caller-supplied display name, if one was given.
    pub open spec fn spec_name(&self) -> Option<Seq<char>> {
        match self {
            AccessionCodes::Srx(a) => a.name.deep_view(),
            AccessionCodes::Srr(a) => a.name.deep_view(),
            AccessionCodes::Gsm(a) => a.name.deep_view(),
        }
    }

    /// The variant tag matches the code's prefix, and the code is non-empty.
    pub open spec fn wf(&self) -> bool {
        match self {
            AccessionCodes::Srx(a) => has_srx_prefix(a.acc@),
            AccessionCodes::Srr(a) => has_srr_prefix(a.acc@),
            AccessionCodes::Gsm(a) => has_gsm_prefix(a.acc@),
        }
    }

    /// What a successful classification of a line with tokens `toks` holds:
    /// the code is the first token, the name the second if present, and the
    /// variant tag matches the code's prefix.
    pub open spec fn parse_ok(self, toks: Seq<Seq<char>>) -> bool {
        &&& 1 <= toks.len() <= 2
        &&& self.wf()
        &&& self.spec_orig() == toks[0]
        &&& self.spec_name() == (if toks.len() == 2 {
            Some(toks[1])
        } else {
            None::<Seq<char>>
        })
        &&& (self is Srx <==> has_srx_prefix(toks[0]))
        &&& (self is Srr <==> has_srr_prefix(toks[0]))
        &&& (self is Gsm <==> has_gsm_prefix(toks[0]))
    }

    /// Classifies one input line: its first token is the accession code, a
    /// second token, if present, is the display name; more tokens are refused.
    pub fn from_str(s: &str) -> (r: Result<AccessionCodes, ParseError>)
        ensures
            ({
                let toks = spec_tokens(s@);
                match r {
                    Ok(a) => a.parse_ok(toks),
                    Err(ParseError::EmptyInput) => toks.len() == 0,
                    Err(ParseError::TooManyFields) => toks.len() > 2,
                    Err(ParseError::UnknownPrefix) => 1 <= toks.len() <= 2
                        && !has_recognized_prefix(toks[0]),
                }
            }),
    {
        let toks = tokenize(s);
        if toks.len() == 0 {
            return Err(ParseError::EmptyInput);
        }
        if toks.len() > 2 {
            return Err(ParseError::TooManyFields);
        }
        let acc = toks[0].clone();
        let name = if toks.len() == 2 {
            Some(toks[1].clone())
        } else {
            None
        };
        proof {
            assert(acc@ == spec_tokens(s@)[0]);
        }
        if acc.as_str().unicode_len() < 3 {
            return Err(ParseError::UnknownPrefix);
        }
        let c0 = acc.as_str().get_char(0);
        let c1 = acc.as_str().get_char(1);
        let c2 = acc.as_str().get_char(2);
        if (c0 == 's' || c0 == 'S') && (c1 == 'r' || c1 == 'R') {
            if c2 == 'x' || c2 == 'X' {
                return Ok(AccessionCodes::Srx(Srx { acc, name }));
            }
            if c2 == 'r' || c2 == 'R' {
                return Ok(AccessionCodes::Srr(Srr { acc, name }));
            }
        } else if (c0 == 'g' || c0 == 'G') && (c1 == 's' || c1 == 'S') && (c2 == 'm' || c2 == 'M') {
            return Ok(AccessionCodes::Gsm(Gsm { acc, name }));
        }
        Err(ParseError::UnknownPrefix)
    }

    /// The accession code exactly as it stood in the input.
    pub fn orig_accession(&self) -> (r: String)
        ensures
            r@ == self.spec_orig(),
    {
        match self {
            AccessionCodes::Srx(a) => a.acc.clone(),
            AccessionCodes::Srr(a) => a.acc.clone(),
            AccessionCodes::Gsm(a) => a.acc.clone(),
        }
    }

    /// The caller-supplied display name, if one was given.
    pub fn name(&self) -> (r: Option<String>)
        ensures
            r.deep_view() == self.spec_name(),
    {
        let n = match self {
            AccessionCodes::Srx(a) => &a.name,
            AccessionCodes::Srr(a) => &a.name,
            AccessionCodes::Gsm(a) => &a.name,
        };
        match n {
            Some(s) => Some(s.clone()),
            None => None,
        }
    }
}

} // verus!
