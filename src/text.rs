//! Character-level helpers shared by the lexer and the parser.
use vstd::prelude::*;
use vstd::string::StrSliceExecFns;

verus! {

/// The characters that separate words on a line.
pub open spec fn is_space(c: char) -> bool {
    c == ' ' || c == '\t' || c == '\n' || c == '\r' || c == '\x0B' || c == '\x0C'
}

pub fn is_space_char(c: char) -> (r: bool)
    ensures
        r == is_space(c),
{
    c == ' ' || c == '\t' || c == '\n' || c == '\r' || c == '\x0B' || c == '\x0C'
}

/// One step of splitting: the finished words and the word in progress.
pub open spec fn split_step(acc: (Seq<Seq<char>>, Seq<char>), c: char) -> (Seq<Seq<char>>, Seq<char>) {
    if is_space(c) {
        if acc.1.len() > 0 {
            (acc.0.push(acc.1), Seq::empty())
        } else {
            (acc.0, Seq::empty())
        }
    } else {
        (acc.0, acc.1.push(c))
    }
}

/// The state of splitting after the first `i` characters of `s`.
pub open spec fn split_prefix(s: Seq<char>, i: nat) -> (Seq<Seq<char>>, Seq<char>)
    decreases i,
{
    if i == 0 || i > s.len() {
        (Seq::empty(), Seq::empty())
    } else {
        split_step(split_prefix(s, (i - 1) as nat), s[i - 1])
    }
}

/// The maximal runs of non-space characters of `s`, in order.
pub open spec fn words_of(s: Seq<char>) -> Seq<Seq<char>> {
    let acc = split_prefix(s, s.len());
    if acc.1.len() > 0 {
        acc.0.push(acc.1)
    } else {
        acc.0
    }
}

pub open spec fn strings_view(v: Seq<String>) -> Seq<Seq<char>> {
    v.map_values(|w: String| w@)
}

/// Character-wise equality of two strings.
pub fn str_eq(a: &str, b: &str) -> (r: bool)
    ensures
        r == (a@ == b@),
{
    let n = a.unicode_len();
    let m = b.unicode_len();
    if n != m {
        return false;
    }
    let mut i: usize = 0;
    while i < n
        invariant
            n == a@.len(),
            m == b@.len(),
            n == m,
            i <= n,
            forall|k: int| 0 <= k < i ==> a@[k] == b@[k],
        decreases n - i,
    {
        if a.get_char(i) != b.get_char(i) {
            return false;
        }
        i = i + 1;
    }
    assert(a@ =~= b@);
    true
}

/// Splits a line into its whitespace-separated words.
pub fn split_words(line: &str) -> (r: Vec<String>)
    ensures
        strings_view(r@) == words_of(line@),
{
    let n = line.unicode_len();
    let mut words: Vec<String> = Vec::new();
    let mut start: usize = 0;
    let mut i: usize = 0;
    while i < n
        invariant
            n == line@.len(),
            start <= i <= n,
            strings_view(words@) == split_prefix(line@, i as nat).0,
            line@.subrange(start as int, i as int) == split_prefix(line@, i as nat).1,
        decreases n - i,
    {
        let c = line.get_char(i);
        let ghost acc = split_prefix(line@, i as nat);
        if is_space_char(c) {
            if start < i {
                let w = line.substring_char(start, i).to_owned();
                words.push(w);
                assert(strings_view(words@) =~= acc.0.push(acc.1));
            }
            start = i + 1;
            assert(line@.subrange(start as int, (i + 1) as int) =~= Seq::<char>::empty());
        } else {
            assert(line@.subrange(start as int, (i + 1) as int) =~= acc.1.push(c));
        }
        i = i + 1;
    }
    let ghost acc = split_prefix(line@, n as nat);
    if start < n {
        let w = line.substring_char(start, n).to_owned();
        words.push(w);
        assert(strings_view(words@) =~= acc.0.push(acc.1));
    } else {
        assert(acc.1.len() == 0);
    }
    words
}

} // verus!
