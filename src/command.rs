use vstd::prelude::*;

verus! {

/// Relies on `String::push`: the character is appended.
#[verifier::external_body]
fn push_char(s: &mut String, c: char)
    ensures
        final(s)@ == old(s)@.push(c),
{
    s.push(c)
}

/// A string made of the characters.
pub fn string_of(cs: &Vec<char>) -> (r: String)
    ensures
        r@ == cs@,
{
    let mut s = String::new();
    let mut i: usize = 0;
    while i < cs.len()
        invariant
            i <= cs@.len(),
            s@ == cs@.subrange(0, i as int),
        decreases cs@.len() - i,
    {
        push_char(&mut s, cs[i]);
        assert(s@ =~= cs@.subrange(0, i as int + 1));
        i += 1;
    }
    assert(cs@.subrange(0, cs@.len() as int) =~= cs@);
    s
}

/// Whether the texts are equal.
pub fn text_eq(a: &str, b: &str) -> (r: bool)
    ensures
        r == (a@ == b@),
{
    let n = a.unicode_len();
    if n != b.unicode_len() {
        return false;
    }
    let mut i: usize = 0;
    while i < n
        invariant
            i <= n == a@.len() == b@.len(),
            forall|k: int| 0 <= k < i ==> a@[k] == b@[k],
        decreases n - i,
    {
        if a.get_char(i) != b.get_char(i) {
            return false;
        }
        i += 1;
    }
    assert(a@ =~= b@);
    true
}

/// The characters that Unicode gives the White_Space property.
pub open spec fn is_white_space(c: char) -> bool {
    ('\u{9}' <= c && c <= '\u{d}') || c == ' ' || c == '\u{85}' || c == '\u{a0}' || c == '\u{1680}'
        || ('\u{2000}' <= c && c <= '\u{200a}') || c == '\u{2028}' || c == '\u{2029}' || c
        == '\u{202f}' || c == '\u{205f}' || c == '\u{3000}'
}

/// Whether `c` is a white-space character of Unicode, as `char::is_whitespace` has it.
pub fn is_whitespace(c: char) -> (r: bool)
    ensures
        r == is_white_space(c),
{
    ('\u{9}' <= c && c <= '\u{d}') || c == ' ' || c == '\u{85}' || c == '\u{a0}' || c == '\u{1680}'
        || ('\u{2000}' <= c && c <= '\u{200a}') || c == '\u{2028}' || c == '\u{2029}' || c
        == '\u{202f}' || c == '\u{205f}' || c == '\u{3000}'
}

/// Where the tokenizer stands after some characters: inside double quotes,
/// after a backslash, after white space outside quotes, and the arguments so far.
pub struct ParseState {
    pub duble_quote_enabled: bool,
    pub next_char_escape_enabled: bool,
    pub next_char_is_new_arg: bool,
    pub args: Vec<Vec<char>>,
}

/// The spec-level state of the tokenizer.
pub struct Tokens {
    pub quoted: bool,
    pub escaped: bool,
    pub new_arg: bool,
    pub args: Seq<Seq<char>>,
}

impl ParseState {
    pub open spec fn tokens(&self) -> Tokens {
        Tokens {
            quoted: self.duble_quote_enabled,
            escaped: self.next_char_escape_enabled,
            new_arg: self.next_char_is_new_arg,
            args: self.args@.map_values(|a: Vec<char>| a@),
        }
    }
}

/// `c` added to the last argument, which it opens when there is none.
pub open spec fn append_to_last(args: Seq<Seq<char>>, c: char) -> Seq<Seq<char>> {
    if args.len() == 0 {
        seq![seq![c]]
    } else {
        args.update(args.len() - 1, args.last().push(c))
    }
}

/// One character read: after a backslash it is taken as it is; a double
/// quote opens or closes quoting; white space inside quotes is kept and
/// outside them ends the argument; a backslash escapes the next character;
/// any other character starts a new argument after white space, or else
/// extends the last one.
pub open spec fn step(t: Tokens, c: char) -> Tokens {
    if t.escaped {
        Tokens { escaped: false, args: append_to_last(t.args, c), ..t }
    } else if c == '"' {
        Tokens { quoted: !t.quoted, ..t }
    } else if is_white_space(c) {
        if t.quoted {
            Tokens { args: append_to_last(t.args, c), ..t }
        } else {
            Tokens { new_arg: true, ..t }
        }
    } else if c == '\\' {
        Tokens { escaped: true, ..t }
    } else if t.new_arg {
        Tokens { new_arg: false, args: t.args.push(seq![c]), ..t }
    } else {
        Tokens { args: append_to_last(t.args, c), ..t }
    }
}

/// The tokenizer's state after reading `text`.
pub open spec fn tokenize(text: Seq<char>) -> Tokens
    decreases text.len(),
{
    if text.len() == 0 {
        Tokens { quoted: false, escaped: false, new_arg: false, args: Seq::empty() }
    } else {
        step(tokenize(text.drop_last()), text.last())
    }
}

fn single(c: char) -> (r: Vec<char>)
    ensures
        r@ == seq![c],
{
    let mut v: Vec<char> = Vec::new();
    v.push(c);
    assert(v@ =~= seq![c]);
    v
}

fn insert_char_to_last_arg(state: &mut ParseState, c: char)
    ensures
        final(state).tokens() == (Tokens {
            args: append_to_last(old(state).tokens().args, c),
            ..old(state).tokens()
        }),
{
    let ghost old_args = state.args@;
    if state.args.len() == 0 {
        state.args.push(single(c));
        assert(state.tokens().args =~= seq![seq![c]]);
    } else {
        let last = state.args.len() - 1;
        let mut a = state.args.remove(last);
        a.push(c);
        state.args.push(a);
        assert(state.tokens().args =~= append_to_last(
            old_args.map_values(|a: Vec<char>| a@),
            c,
        ));
    }
}

/// Splits a command text into arguments: white space separates them,
/// double quotes keep white space inside one, and a backslash takes the
/// next character as it is.
pub fn parse_args(text: &str) -> (r: Vec<String>)
    ensures
        r@.map_values(|s: String| s@) == tokenize(text@).args,
{
    let mut state = ParseState {
        duble_quote_enabled: false,
        next_char_escape_enabled: false,
        next_char_is_new_arg: false,
        args: Vec::new(),
    };
    let n = text.unicode_len();
    let mut i: usize = 0;
    assert(state.tokens().args =~= Seq::<Seq<char>>::empty());
    while i < n
        invariant
            i <= n == text@.len(),
            state.tokens() == tokenize(text@.subrange(0, i as int)),
        decreases n - i,
    {
        let c = text.get_char(i);
        assert(text@.subrange(0, i as int + 1).drop_last() =~= text@.subrange(0, i as int));
        assert(text@.subrange(0, i as int + 1).last() == c);
        if state.next_char_escape_enabled {
            insert_char_to_last_arg(&mut state, c);
            state.next_char_escape_enabled = false;
        } else if c == '"' {
            state.duble_quote_enabled = !state.duble_quote_enabled;
        } else if is_whitespace(c) {
            if state.duble_quote_enabled {
                insert_char_to_last_arg(&mut state, c);
            } else {
                state.next_char_is_new_arg = true;
            }
        } else if c == '\\' {
            state.next_char_escape_enabled = true;
        } else {
            if state.next_char_is_new_arg {
                let ghost old_args = state.args@;
                state.args.push(single(c));
                state.next_char_is_new_arg = false;
                assert(state.tokens().args =~= old_args.map_values(|a: Vec<char>| a@).push(seq![c]));
            } else {
                insert_char_to_last_arg(&mut state, c);
            }
        }
        i += 1;
    }
    assert(text@.subrange(0, n as int) =~= text@);
    let mut out: Vec<String> = Vec::new();
    let mut k: usize = 0;
    while k < state.args.len()
        invariant
            k <= state.args@.len(),
            out@.len() == k,
            forall|q: int| 0 <= q < k ==> #[trigger] out@[q]@ == state.args@[q]@,
        decreases state.args@.len() - k,
    {
        out.push(string_of(&state.args[k]));
        k += 1;
    }
    assert(out@.map_values(|s: String| s@) =~= state.tokens().args);
    out
}


/// Whether the first argument asks for help.
pub fn is_help_command(args: &[String]) -> (r: bool)
    ensures
        r == (args@.len() > 0 && (args@[0]@ == "help"@ || args@[0]@ == "--help"@ || args@[0]@
            == "-h"@)),
{
    if args.len() == 0 {
        return false;
    }
    let first = args[0].as_str();
    text_eq(first, "help") || text_eq(first, "--help") || text_eq(first, "-h")
}

/// A character as `escape_arg` writes it: a backslash or a double quote
/// gets a backslash before it.
pub open spec fn escape_char(c: char) -> Seq<char> {
    if c == '\\' || c == '"' {
        seq!['\\', c]
    } else {
        seq![c]
    }
}

pub open spec fn escape_all(s: Seq<char>) -> Seq<char>
    decreases s.len(),
{
    if s.len() == 0 {
        Seq::empty()
    } else {
        escape_all(s.drop_last()) + escape_char(s.last())
    }
}

/// An argument that holds a space in double quotes, with its backslashes
/// and double quotes escaped; any other argument as it is.
pub open spec fn escaped_arg(s: Seq<char>) -> Seq<char> {
    if s.contains(' ') {
        seq!['"'] + escape_all(s) + seq!['"']
    } else {
        s
    }
}

/// Quotes and escapes an argument that holds a space, so that it can be
/// written back into a command and read as one argument.
pub fn escape_arg(arg: &str) -> (r: String)
    ensures
        r@ == escaped_arg(arg@),
{
    let n = arg.unicode_len();
    let mut has_space = false;
    let mut i: usize = 0;
    while i < n
        invariant
            i <= n == arg@.len(),
            has_space == exists|k: int| 0 <= k < i && arg@[k] == ' ',
        decreases n - i,
    {
        if arg.get_char(i) == ' ' {
            has_space = true;
        }
        i += 1;
    }
    assert(has_space == arg@.contains(' '));
    let mut out = String::new();
    if !has_space {
        out.append(arg);
        assert(out@ =~= arg@);
        return out;
    }
    push_char(&mut out, '"');
    let mut j: usize = 0;
    while j < n
        invariant
            j <= n == arg@.len(),
            out@ == seq!['"'] + escape_all(arg@.subrange(0, j as int)),
        decreases n - j,
    {
        let c = arg.get_char(j);
        assert(arg@.subrange(0, j as int + 1).drop_last() =~= arg@.subrange(0, j as int));
        if c == '\\' || c == '"' {
            push_char(&mut out, '\\');
        }
        push_char(&mut out, c);
        assert(out@ =~= seq!['"'] + escape_all(arg@.subrange(0, j as int + 1)));
        j += 1;
    }
    assert(arg@.subrange(0, n as int) =~= arg@);
    push_char(&mut out, '"');
    out
}

/// A reference to a user or other entity embedded in a chat message.
pub struct Embedded {
    pub raw: String,
    pub kind: String,
    pub id: String,
}

/// Whether the message mentions the user `bot_user_id`.
pub fn is_mentioned(embedded: &Vec<Embedded>, bot_user_id: &str) -> (r: bool)
    ensures
        r == exists|k: int|
            0 <= k < embedded@.len() && #[trigger] embedded@[k].kind@ == "user"@ && embedded@[k].id@
                == bot_user_id@,
{
    let mut k: usize = 0;
    while k < embedded.len()
        invariant
            k <= embedded@.len(),
            forall|q: int| 0 <= q < k ==> !(#[trigger] embedded@[q].kind@ == "user"@ && embedded@[q].id@ == bot_user_id@),
        decreases embedded@.len() - k,
    {
        if text_eq(embedded[k].kind.as_str(), "user") && text_eq(embedded[k].id.as_str(), bot_user_id) {
            return true;
        }
        k += 1;
    }
    false
}

} // verus!
