use vstd::prelude::*;
use vstd::string::StrSliceExecFns;

verus! {

/// The Unicode `White_Space` property, the set that `char::is_whitespace` tests.
pub open spec fn spec_is_ws(c: char) -> bool {
    let u = c as u32;
    (0x09 <= u && u <= 0x0d) || u == 0x20 || u == 0x85 || u == 0xa0 || u == 0x1680 || (0x2000
        <= u && u <= 0x200a) || u == 0x2028 || u == 0x2029 || u == 0x202f || u == 0x205f || u
        == 0x3000
}

/// Length of the run of non-whitespace characters that starts at `i`.
pub open spec fn word_len(s: Seq<char>, i: int) -> nat
    decreases s.len() - i,
{
    if i < 0 || i >= s.len() || spec_is_ws(s[i]) {
        0
    } else {
        1 + word_len(s, i + 1)
    }
}

proof fn lemma_word_len_bound(s: Seq<char>, i: int)
    requires
        0 <= i,
    ensures
        i + word_len(s, i) <= s.len() || word_len(s, i) == 0,
    decreases s.len() - i,
{
    if i < s.len() && !spec_is_ws(s[i]) {
        lemma_word_len_bound(s, i + 1);
    }
}

#[via_fn]
proof fn words_from_decreases(s: Seq<char>, i: int) {
    if 0 <= i < s.len() && !spec_is_ws(s[i]) {
        lemma_word_len_bound(s, i + 1);
    }
}

/// The whitespace-separated words of `s` from position `i` on.
pub open spec fn words_from(s: Seq<char>, i: int) -> Seq<Seq<char>>
    decreases s.len() - i,
    via words_from_decreases
{
    if i < 0 || i >= s.len() {
        seq![]
    } else if spec_is_ws(s[i]) {
        words_from(s, i + 1)
    } else {
        let e = i + 1 + word_len(s, i + 1);
        seq![s.subrange(i, e)] + words_from(s, e)
    }
}

/// The whitespace-separated words of `s`, as `str::split_whitespace` yields them.
pub open spec fn words(s: Seq<char>) -> Seq<Seq<char>> {
    words_from(s, 0)
}

pub enum Command {
    Start,
    New(String),
    Delete(String),
}

pub enum CommandView {
    Start,
    New(Seq<char>),
    Delete(Seq<char>),
}

impl View for Command {
    type V = CommandView;

    open spec fn view(&self) -> CommandView {
        match self {
            Command::Start => CommandView::Start,
            Command::New(s) => CommandView::New(s@),
            Command::Delete(s) => CommandView::Delete(s@),
        }
    }
}

/// What a command line means: at most two words, a known command in the first,
/// and the argument in the second where the command needs one.
pub open spec fn parse_spec(s: Seq<char>) -> Result<CommandView, Seq<char>> {
    let w = words(s);
    if w.len() == 0 {
        Err("Empty command"@)
    } else if w.len() > 2 {
        Err("Too much arguments"@)
    } else if w[0] == "/start"@ {
        Ok(CommandView::Start)
    } else if w[0] == "/new"@ {
        if w.len() == 2 {
            Ok(CommandView::New(w[1]))
        } else {
            Err("You have to specify an argument"@)
        }
    } else if w[0] == "/del"@ {
        if w.len() == 2 {
            Ok(CommandView::Delete(w[1]))
        } else {
            Err("You have to specify an argument"@)
        }
    } else {
        Err("Command not found"@)
    }
}

pub fn is_ws(c: char) -> (r: bool)
    ensures
        r == spec_is_ws(c),
{
    let u = c as u32;
    (0x09 <= u && u <= 0x0d) || u == 0x20 || u == 0x85 || u == 0xa0 || u == 0x1680 || (0x2000
        <= u && u <= 0x200a) || u == 0x2028 || u == 0x2029 || u == 0x202f || u == 0x205f || u
        == 0x3000
}

/// Finds the next word at or after `start`: `(b, e)` with `b == n` when there is none.
fn next_word(text: &str, n: usize, start: usize) -> (r: (usize, usize))
    requires
        n == text@.len(),
        start <= n,
    ensures
        start <= r.0 <= r.1 <= n,
        r.0 == n ==> r.1 == n && words_from(text@, start as int) == Seq::<Seq<char>>::empty(),
        r.0 < n ==> r.0 < r.1 && words_from(text@, start as int) == seq![
            text@.subrange(r.0 as int, r.1 as int),
        ] + words_from(text@, r.1 as int),
{
    let ghost s = text@;
    let mut b: usize = start;
    while b < n && is_ws(text.get_char(b))
        invariant
            start <= b <= n,
            n == s.len(),
            s == text@,
            words_from(s, start as int) == words_from(s, b as int),
        decreases n - b,
    {
        b = b + 1;
    }
    if b == n {
        return (n, n);
    }
    let mut e: usize = b;
    while e < n && !is_ws(text.get_char(e))
        invariant
            b <= e <= n,
            b < n,
            n == s.len(),
            s == text@,
            !spec_is_ws(s[b as int]),
            word_len(s, b as int) == (e - b) + word_len(s, e as int),
        decreases n - e,
    {
        e = e + 1;
    }
    assert(word_len(s, e as int) == 0);
    assert(word_len(s, b as int) == 1 + word_len(s, b + 1));
    assert(e > b);
    (b, e)
}

/// Whether the characters `b..e` of `text` spell `lit`.
pub(crate) fn word_is(text: &str, b: usize, e: usize, lit: &str) -> (r: bool)
    requires
        b <= e <= text@.len(),
    ensures
        r == (text@.subrange(b as int, e as int) == lit@),
{
    let m = lit.unicode_len();
    if e - b != m {
        assert(text@.subrange(b as int, e as int).len() != lit@.len());
        return false;
    }
    let mut k: usize = 0;
    while k < m
        invariant
            k <= m,
            m == lit@.len(),
            e - b == m,
            b <= e <= text@.len(),
            forall|t: int| 0 <= t < k ==> text@[b + t] == lit@[t],
        decreases m - k,
    {
        if text.get_char(b + k) != lit.get_char(k) {
            assert(text@.subrange(b as int, e as int)[k as int] != lit@[k as int]);
            return false;
        }
        k = k + 1;
    }
    assert(text@.subrange(b as int, e as int) =~= lit@);
    true
}

impl Command {
    /// Reads a chat command line such as `/new 42`.
    pub fn parse(text: &str) -> (r: Result<Self, &'static str>)
        ensures
            match r {
                Ok(c) => parse_spec(text@) == Ok::<CommandView, Seq<char>>(c@),
                Err(e) => parse_spec(text@) == Err::<CommandView, Seq<char>>(e@),
            },
    {
        let n = text.unicode_len();
        let (b1, e1) = next_word(text, n, 0);
        if b1 == n {
            return Err("Empty command");
        }
        let (b2, e2) = next_word(text, n, e1);
        let (b3, e3) = next_word(text, n, e2);
        let ghost s = text@;
        proof {
            assert(words(s) == words_from(s, 0));
            if b2 < n {
                assert(words(s) =~= seq![s.subrange(b1 as int, e1 as int)] + (seq![
                    s.subrange(b2 as int, e2 as int),
                ] + words_from(s, e2 as int)));
                assert(words(s)[1] == s.subrange(b2 as int, e2 as int));
            } else {
                assert(words(s) =~= seq![s.subrange(b1 as int, e1 as int)]);
            }
            assert(words(s)[0] == s.subrange(b1 as int, e1 as int));
        }
        if b3 < n {
            return Err("Too much arguments");
        }
        if word_is(text, b1, e1, "/start") {
            Ok(Command::Start)
        } else if word_is(text, b1, e1, "/new") {
            if b2 < n {
                Ok(Command::New(text.substring_char(b2, e2).to_owned()))
            } else {
                Err("You have to specify an argument")
            }
        } else if word_is(text, b1, e1, "/del") {
            if b2 < n {
                Ok(Command::Delete(text.substring_char(b2, e2).to_owned()))
            } else {
                Err("You have to specify an argument")
            }
        } else {
            Err("Command not found")
        }
    }
}

} // verus!
