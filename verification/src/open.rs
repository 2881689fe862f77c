//! Turning the `open_command` template into the argument vector of the
//! editor to run. The template is split with POSIX shell-word rules and then
//! `{file}`, `{line}` and `{col}` are substituted in each word; no shell is
//! ever involved, so a path with spaces stays one argument.
use crate::text::{
    decimal, lemma_replace_absent, occurs, push_decimal, replace, replace_all, string_of, to_chars,
};
use vstd::prelude::*;

verus! {

#[verifier::external_type_specification]
#[verifier::external_body]
pub struct ExShellParseError(shell_words::ParseError);

/// The words `shell_words::split` makes of `s`, or `None` where it reports
/// a parse error (an unterminated quote).
pub uninterp spec fn shell_split(s: Seq<char>) -> Option<Seq<Seq<char>>>;

/// `shell_words::split`: splits `s` into words by POSIX shell rules, and
/// fails on an unterminated quote. The words are stated through
/// `shell_split`; the rules themselves are not restated.
#[verifier::external_body]
fn split_words(s: &str) -> (r: Result<Vec<String>, shell_words::ParseError>)
    ensures
        r is Ok <==> shell_split(s@) is Some,
        r matches Ok(words) ==> words@.map_values(|w: String| w@) == shell_split(s@).unwrap(),
{
    shell_words::split(s)
}

/// One word of the template with the placeholders filled in, in the order
/// `{file}`, `{line}`, `{col}`.
pub open spec fn substitute(word: Seq<char>, file: Seq<char>, line: u64, col: u64) -> Seq<char> {
    replace_all(
        replace_all(replace_all(word, "{file}"@, file), "{line}"@, decimal(line as nat)),
        "{col}"@,
        decimal(col as nat),
    )
}

/// Why a template gives no command to run.
#[derive(Debug)]
pub enum OpenError {
    /// The template is not valid shell syntax; it carries the template.
    InvalidSyntax(String),
    /// The template holds no words.
    Empty,
}

impl OpenError {
    /// The message shown to the user.
    pub fn message(&self) -> (m: String)
        ensures
            self matches OpenError::InvalidSyntax(t) ==> m@
                == "open_command is not valid shell syntax: `"@ + t@ + "`"@,
            self is Empty ==> m@ == "open_command is empty"@,
    {
        match self {
            OpenError::InvalidSyntax(t) => {
                let mut m = String::from_str("open_command is not valid shell syntax: `");
                m.append(t.as_str());
                m.append("`");
                m
            },
            OpenError::Empty => String::from_str("open_command is empty"),
        }
    }
}

/// The argument vector by chars, or the error.
pub open spec fn argv_model(r: Result<Vec<String>, OpenError>) -> Result<
    Seq<Seq<char>>,
    OpenError,
> {
    match r {
        Ok(v) => Ok(v@.map_values(|w: String| w@)),
        Err(e) => Err(e),
    }
}

/// What the words of a template become: each substituted; no words is an
/// error.
pub open spec fn argv_of(words: Seq<Seq<char>>, file: Seq<char>, line: u64, col: u64) -> Option<
    Seq<Seq<char>>,
> {
    if words.len() == 0 {
        None
    } else {
        Some(words.map_values(|w: Seq<char>| substitute(w, file, line, col)))
    }
}

/// The word holds none of `{file}`, `{line}` and `{col}`.
pub open spec fn no_placeholder(word: Seq<char>) -> bool {
    !occurs(word, "{file}"@) && !occurs(word, "{line}"@) && !occurs(word, "{col}"@)
}

/// The editor gets one argument per word of the template, whatever the
/// file path holds: a path with spaces, quotes or `;` stays one argument.
/// A word without placeholders is passed on as it is.
pub proof fn law_one_argument_per_word(words: Seq<Seq<char>>, file: Seq<char>, line: u64, col: u64)
    requires
        words.len() > 0,
    ensures
        argv_of(words, file, line, col) matches Some(argv) && argv.len() == words.len()
            && forall|i: int|
            0 <= i < words.len() && no_placeholder(#[trigger] words[i]) ==> argv[i] == words[i],
{
    reveal_strlit("{file}");
    reveal_strlit("{line}");
    reveal_strlit("{col}");
    let argv = words.map_values(|w: Seq<char>| substitute(w, file, line, col));
    assert forall|i: int| 0 <= i < words.len() && no_placeholder(#[trigger] words[i]) implies argv[i]
        == words[i] by {
        let w = words[i];
        lemma_replace_absent(w, "{file}"@, file);
        lemma_replace_absent(w, "{line}"@, decimal(line as nat));
        lemma_replace_absent(w, "{col}"@, decimal(col as nat));
    }
}

/// One template word with its placeholders filled in.
fn substitute_word(word: &str, file: &[char], line: &[char], col: &[char]) -> (r: String)
    ensures
        r@ == replace_all(
            replace_all(replace_all(word@, "{file}"@, file@), "{line}"@, line@),
            "{col}"@,
            col@,
        ),
{
    let w = to_chars(word);
    let f_pat = to_chars("{file}");
    let l_pat = to_chars("{line}");
    let c_pat = to_chars("{col}");
    proof {
        reveal_strlit("{file}");
        reveal_strlit("{line}");
        reveal_strlit("{col}");
    }
    let a = replace(w.as_slice(), f_pat.as_slice(), file);
    let b = replace(a.as_slice(), l_pat.as_slice(), line);
    let c = replace(b.as_slice(), c_pat.as_slice(), col);
    string_of(c.as_slice(), 0, c.len())
}

/// The argument vector for a template already split into words: each word
/// substituted; no words at all is `OpenError::Empty`.
pub fn argv_from_words(words: Vec<String>, file: &str, line: u64, col: u64) -> (r: Result<
    Vec<String>,
    OpenError,
>)
    ensures
        match argv_of(words@.map_values(|w: String| w@), file@, line, col) {
            None => r matches Err(OpenError::Empty),
            Some(argv) => argv_model(r) == Ok::<Seq<Seq<char>>, OpenError>(argv),
        },
{
    let ghost ws = words@.map_values(|w: String| w@);
    if words.len() == 0 {
        return Err(OpenError::Empty);
    }
    let f = to_chars(file);
    let mut ls = String::new();
    push_decimal(&mut ls, line as u128);
    let l = to_chars(ls.as_str());
    let mut cs = String::new();
    push_decimal(&mut cs, col as u128);
    let c = to_chars(cs.as_str());
    let mut argv: Vec<String> = Vec::new();
    let mut i: usize = 0;
    while i < words.len()
        invariant
            i <= words@.len(),
            ws == words@.map_values(|w: String| w@),
            f@ == file@,
            l@ == decimal(line as nat),
            c@ == decimal(col as nat),
            argv@.map_values(|w: String| w@) == ws.take(i as int).map_values(
                |w: Seq<char>| substitute(w, file@, line, col),
            ),
        decreases words@.len() - i,
    {
        let s = substitute_word(words[i].as_str(), f.as_slice(), l.as_slice(), c.as_slice());
        let ghost before = argv@;
        argv.push(s);
        assert(argv@.map_values(|w: String| w@) =~= ws.take(i + 1).map_values(
            |w: Seq<char>| substitute(w, file@, line, col),
        )) by {
            assert(argv@ =~= before.push(s));
            assert(ws[i as int] == words@[i as int]@);
            assert(s@ == substitute(ws[i as int], file@, line, col));
            assert(argv@.map_values(|w: String| w@) =~= before.map_values(|w: String| w@).push(
                s@,
            ));
            assert(ws.take(i + 1) =~= ws.take(i as int).push(ws[i as int]));
            assert(ws.take(i + 1).map_values(|w: Seq<char>| substitute(w, file@, line, col))
                =~= ws.take(i as int).map_values(
                |w: Seq<char>| substitute(w, file@, line, col),
            ).push(substitute(ws[i as int], file@, line, col)));
        }
        i = i + 1;
    }
    assert(ws.take(words@.len() as int) =~= ws);
    Ok(argv)
}

/// The argument vector of the editor command for one result.
pub fn build_argv(template: &str, file: &str, line: u64, col: u64) -> (r: Result<
    Vec<String>,
    OpenError,
>)
    ensures
        match shell_split(template@) {
            None => (r matches Err(OpenError::InvalidSyntax(t)) && t@ == template@),
            Some(words) => match argv_of(words, file@, line, col) {
                None => r matches Err(OpenError::Empty),
                Some(argv) => argv_model(r) == Ok::<Seq<Seq<char>>, OpenError>(argv),
            },
        },
{
    match split_words(template) {
        Ok(words) => argv_from_words(words, file, line, col),
        Err(_) => {
            let v = to_chars(template);
            Err(OpenError::InvalidSyntax(string_of(v.as_slice(), 0, v.len())))
        },
    }
}

} // verus!
