//! Verified character-level string utilities: equality, search, slicing and
//! decimal formatting, all specified over `Seq<char>` views.

use vstd::prelude::*;
use vstd::string::StrSliceExecFns;
use vstd::string::StringExecFns;

verus! {

/// Character-exact string equality.
pub fn str_eq_str(a: &str, b: &str) -> (r: bool)
    ensures
        r == (a@ == b@),
{
    let na = a.unicode_len();
    let nb = b.unicode_len();
    if na != nb {
        proof {
            assert(a@ != b@) by {
                assert(a@.len() != b@.len());
            }
        }
        return false;
    }
    let mut i: usize = 0;
    while i < na
        invariant
            na == a@.len(),
            nb == b@.len(),
            na == nb,
            i <= na,
            forall|j: int| 0 <= j < i ==> a@[j] == b@[j],
        decreases na - i,
    {
        if a.get_char(i) != b.get_char(i) {
            return false;
        }
        i = i + 1;
    }
    proof {
        assert(a@ =~= b@);
    }
    true
}

/// Character-exact equality of a `String` and a `&str`.
pub fn string_is(s: &String, lit: &str) -> (r: bool)
    ensures
        r == (s@ == lit@),
{
    str_eq_str(s.as_str(), lit)
}

/// Whether `sub` occurs in `s` starting at position `at`.
pub open spec fn occurs_at(s: Seq<char>, sub: Seq<char>, at: int) -> bool {
    &&& 0 <= at
    &&& at + sub.len() <= s.len()
    &&& s.subrange(at, at + sub.len() as int) == sub
}

/// Whether `sub` occurs anywhere in `s`.
pub open spec fn contains_seq(s: Seq<char>, sub: Seq<char>) -> bool {
    exists|at: int| occurs_at(s, sub, at)
}

/// The first position at or after `from` where `sub` occurs in `s`, if any.
pub open spec fn first_occurrence_from(s: Seq<char>, sub: Seq<char>, from: int) -> Option<int>
    decreases s.len() + 1 - from,
{
    if from + sub.len() > s.len() {
        None
    } else if occurs_at(s, sub, from) {
        Some(from)
    } else {
        first_occurrence_from(s, sub, from + 1)
    }
}

/// Tests whether `sub` occurs in `s` at exactly the position `at`.
pub fn occurs_at_exec(s: &str, sub: &str, at: usize) -> (r: bool)
    requires
        at + sub@.len() <= s@.len(),
        at + sub@.len() <= usize::MAX,
    ensures
        r == occurs_at(s@, sub@, at as int),
{
    let m = sub.unicode_len();
    let mut j: usize = 0;
    while j < m
        invariant
            m == sub@.len(),
            at + m <= s@.len(),
            at + m <= usize::MAX,
            j <= m,
            forall|k: int| 0 <= k < j ==> s@[at + k] == sub@[k],
        decreases m - j,
    {
        if s.get_char(at + j) != sub.get_char(j) {
            proof {
                assert(s@.subrange(at as int, at + sub@.len() as int)[j as int] != sub@[j as int]);
            }
            return false;
        }
        j = j + 1;
    }
    proof {
        assert(s@.subrange(at as int, at + sub@.len() as int) =~= sub@);
    }
    true
}

/// Finds the first occurrence of `sub` in `s` at or after `from`.
pub fn find_from(s: &str, sub: &str, from: usize) -> (r: Option<usize>)
    requires
        from <= s@.len(),
    ensures
        match r {
            Some(i) => from <= i && first_occurrence_from(s@, sub@, from as int) == Some(i as int),
            None => first_occurrence_from(s@, sub@, from as int) is None,
        },
{
    let n = s.unicode_len();
    let m = sub.unicode_len();
    let mut i: usize = from;
    loop
        invariant
            n == s@.len(),
            m == sub@.len(),
            from <= i,
            i <= n,
            first_occurrence_from(s@, sub@, from as int) == first_occurrence_from(
                s@,
                sub@,
                i as int,
            ),
        decreases n - i,
    {
        if m > n - i {
            proof {
                assert(first_occurrence_from(s@, sub@, i as int) is None);
            }
            return None;
        }
        if occurs_at_exec(s, sub, i) {
            return Some(i);
        }
        proof {
            if m == 0 {
                assert(s@.subrange(i as int, i as int) =~= sub@);
            }
        }
        i = i + 1;
    }
}

/// Whether `sub` occurs anywhere in `s`, by scanning every position.
pub fn contains_sub(s: &str, sub: &str) -> (r: bool)
    ensures
        r == contains_seq(s@, sub@),
{
    let r = find_from(s, sub, 0);
    proof {
        lemma_first_occurrence_charac(s@, sub@, 0);
    }
    match r {
        Some(_) => true,
        None => false,
    }
}

/// The first occurrence found from `from` is an occurrence, is at least
/// `from`, is least among occurrences at or after `from`; and `None` means
/// there is none at or after `from`.
pub proof fn lemma_first_occurrence_charac(s: Seq<char>, sub: Seq<char>, from: int)
    requires
        0 <= from,
    ensures
        match first_occurrence_from(s, sub, from) {
            Some(i) => occurs_at(s, sub, i) && from <= i && forall|j: int|
                from <= j < i ==> !occurs_at(s, sub, j),
            None => forall|j: int| from <= j ==> !occurs_at(s, sub, j),
        },
    decreases s.len() + 1 - from,
{
    if from + sub.len() > s.len() {
        assert forall|j: int| from <= j implies !occurs_at(s, sub, j) by {
            assert(j + sub.len() > s.len());
        }
    } else if occurs_at(s, sub, from) {
    } else {
        assert(sub.len() > 0) by {
            if sub.len() == 0 {
                assert(s.subrange(from, from) =~= sub);
            }
        }
        lemma_first_occurrence_charac(s, sub, from + 1);
    }
}

/// Whether `s` starts with `prefix`.
pub fn starts_with_sub(s: &str, prefix: &str) -> (r: bool)
    ensures
        r == (prefix@.len() <= s@.len() && s@.subrange(0, prefix@.len() as int) == prefix@),
{
    let n = s.unicode_len();
    let m = prefix.unicode_len();
    if m > n {
        return false;
    }
    occurs_at_exec(s, prefix, 0)
}

/// The first position at or after `i` where the character `c` stands in
/// `s`, if any.
pub open spec fn char_at_from(s: Seq<char>, c: char, i: int) -> Option<int>
    decreases s.len() + 1 - i,
{
    if i < 0 || i >= s.len() {
        None
    } else if s[i] == c {
        Some(i)
    } else {
        char_at_from(s, c, i + 1)
    }
}

/// Finds the first occurrence of the character `c` at or after `from`.
pub fn find_char_from(s: &str, c: char, from: usize) -> (r: Option<usize>)
    requires
        from <= s@.len(),
    ensures
        match r {
            Some(i) => from <= i && char_at_from(s@, c, from as int) == Some(i as int),
            None => char_at_from(s@, c, from as int) is None,
        },
{
    let n = s.unicode_len();
    let mut i: usize = from;
    while i < n
        invariant
            n == s@.len(),
            from <= i,
            i <= n,
            char_at_from(s@, c, from as int) == char_at_from(s@, c, i as int),
        decreases n - i,
    {
        if s.get_char(i) == c {
            return Some(i);
        }
        i = i + 1;
    }
    None
}

/// Whatever `char_at_from` finds is the first occurrence at or after `from`.
pub proof fn lemma_char_at_from_charac(s: Seq<char>, c: char, from: int)
    requires
        0 <= from,
    ensures
        match char_at_from(s, c, from) {
            Some(i) => from <= i < s.len() && s[i] == c && forall|j: int|
                from <= j < i ==> s[j] != c,
            None => forall|j: int| from <= j < s.len() ==> s[j] != c,
        },
    decreases s.len() + 1 - from,
{
    if from < s.len() && s[from] != c {
        lemma_char_at_from_charac(s, c, from + 1);
    }
}

/// What `str::to_lowercase` returns for a string: a function of the
/// characters alone.
pub uninterp spec fn lower_of(s: Seq<char>) -> Seq<char>;

/// Relies on `str::to_lowercase`: the result depends on the characters of
/// `s` alone.
#[verifier::external_body]
pub fn lowercase(s: &str) -> (r: String)
    ensures
        r@ == lower_of(s@),
{
    s.to_lowercase()
}

/// Whether `c` is Unicode white space, as `char::is_whitespace` decides it;
/// a function of the character alone.
pub uninterp spec fn is_unicode_space(c: char) -> bool;

/// Relies on `char::is_whitespace`: a pure predicate of the character alone.
#[verifier::external_body]
pub fn char_is_space(c: char) -> (r: bool)
    ensures
        r == is_unicode_space(c),
{
    c.is_whitespace()
}

/// The first position at or after `i` holding a white-space character.
pub open spec fn space_at_from(s: Seq<char>, i: int) -> Option<int>
    decreases s.len() + 1 - i,
{
    if i < 0 || i >= s.len() {
        None
    } else if is_unicode_space(s[i]) {
        Some(i)
    } else {
        space_at_from(s, i + 1)
    }
}

/// Finds the first white-space character at or after `from`.
pub fn find_space_from(s: &str, from: usize) -> (r: Option<usize>)
    requires
        from <= s@.len(),
    ensures
        match r {
            Some(i) => from <= i && space_at_from(s@, from as int) == Some(i as int),
            None => space_at_from(s@, from as int) is None,
        },
{
    let n = s.unicode_len();
    let mut i: usize = from;
    while i < n
        invariant
            n == s@.len(),
            from <= i,
            i <= n,
            space_at_from(s@, from as int) == space_at_from(s@, i as int),
        decreases n - i,
    {
        if char_is_space(s.get_char(i)) {
            return Some(i);
        }
        i = i + 1;
    }
    None
}

/// Whatever `space_at_from` finds is the first white-space position at or
/// after `from`.
pub proof fn lemma_space_at_from_charac(s: Seq<char>, from: int)
    requires
        0 <= from,
    ensures
        match space_at_from(s, from) {
            Some(i) => from <= i < s.len() && is_unicode_space(s[i]) && forall|j: int|
                from <= j < i ==> !is_unicode_space(s[j]),
            None => forall|j: int| from <= j < s.len() ==> !is_unicode_space(s[j]),
        },
    decreases s.len() + 1 - from,
{
    if from < s.len() && !is_unicode_space(s[from]) {
        lemma_space_at_from_charac(s, from + 1);
    }
}

/// Whether `p` is a prefix of `s`.
pub open spec fn has_prefix(s: Seq<char>, p: Seq<char>) -> bool {
    p.len() <= s.len() && s.subrange(0, p.len() as int) == p
}

/// `s` with every leading repetition of the non-empty prefix `p` removed.
pub open spec fn strip_prefix_rep(s: Seq<char>, p: Seq<char>) -> Seq<char>
    decreases s.len(),
{
    if p.len() > 0 && has_prefix(s, p) {
        strip_prefix_rep(s.skip(p.len() as int), p)
    } else {
        s
    }
}

/// Removes every leading repetition of `p` from `s`.
pub fn strip_prefix_rep_exec(s: &str, p: &str) -> (r: String)
    ensures
        r@ == strip_prefix_rep(s@, p@),
    decreases s@.len(),
{
    let n = s.unicode_len();
    let m = p.unicode_len();
    if m > 0 && starts_with_sub(s, p) {
        let rest = s.substring_char(m, n);
        proof {
            assert(rest@ =~= s@.skip(m as int));
        }
        strip_prefix_rep_exec(rest, p)
    } else {
        s.to_owned()
    }
}

/// `s` without its leading white space.
pub open spec fn trim_start_spec(s: Seq<char>) -> Seq<char>
    decreases s.len(),
{
    if s.len() > 0 && is_unicode_space(s[0]) {
        trim_start_spec(s.drop_first())
    } else {
        s
    }
}

/// `s` without its trailing white space.
pub open spec fn trim_end_spec(s: Seq<char>) -> Seq<char>
    decreases s.len(),
{
    if s.len() > 0 && is_unicode_space(s.last()) {
        trim_end_spec(s.drop_last())
    } else {
        s
    }
}

/// `s` without leading and trailing white space.
pub open spec fn trim_spec(s: Seq<char>) -> Seq<char> {
    trim_end_spec(trim_start_spec(s))
}

fn trim_start_exec(s: &str) -> (r: String)
    ensures
        r@ == trim_start_spec(s@),
    decreases s@.len(),
{
    let n = s.unicode_len();
    if n > 0 && char_is_space(s.get_char(0)) {
        let rest = s.substring_char(1, n);
        proof {
            assert(rest@ =~= s@.drop_first());
        }
        trim_start_exec(rest)
    } else {
        s.to_owned()
    }
}

fn trim_end_exec(s: &str) -> (r: String)
    ensures
        r@ == trim_end_spec(s@),
    decreases s@.len(),
{
    let n = s.unicode_len();
    if n > 0 && char_is_space(s.get_char(n - 1)) {
        let rest = s.substring_char(0, n - 1);
        proof {
            assert(rest@ =~= s@.drop_last());
        }
        trim_end_exec(rest)
    } else {
        s.to_owned()
    }
}

/// Removes leading and trailing white space.
pub fn trim_exec(s: &str) -> (r: String)
    ensures
        r@ == trim_spec(s@),
{
    let st = trim_start_exec(s);
    trim_end_exec(st.as_str())
}

/// `s` without leading repetitions of the character `c`.
pub open spec fn trim_char_start_spec(s: Seq<char>, c: char) -> Seq<char>
    decreases s.len(),
{
    if s.len() > 0 && s[0] == c {
        trim_char_start_spec(s.drop_first(), c)
    } else {
        s
    }
}

/// `s` without trailing repetitions of the character `c`.
pub open spec fn trim_char_end_spec(s: Seq<char>, c: char) -> Seq<char>
    decreases s.len(),
{
    if s.len() > 0 && s.last() == c {
        trim_char_end_spec(s.drop_last(), c)
    } else {
        s
    }
}

/// `s` without leading and trailing repetitions of the character `c`.
pub open spec fn trim_char_spec(s: Seq<char>, c: char) -> Seq<char> {
    trim_char_end_spec(trim_char_start_spec(s, c), c)
}

fn trim_char_start_exec(s: &str, c: char) -> (r: String)
    ensures
        r@ == trim_char_start_spec(s@, c),
    decreases s@.len(),
{
    let n = s.unicode_len();
    if n > 0 && s.get_char(0) == c {
        let rest = s.substring_char(1, n);
        proof {
            assert(rest@ =~= s@.drop_first());
        }
        trim_char_start_exec(rest, c)
    } else {
        s.to_owned()
    }
}

fn trim_char_end_exec(s: &str, c: char) -> (r: String)
    ensures
        r@ == trim_char_end_spec(s@, c),
    decreases s@.len(),
{
    let n = s.unicode_len();
    if n > 0 && s.get_char(n - 1) == c {
        let rest = s.substring_char(0, n - 1);
        proof {
            assert(rest@ =~= s@.drop_last());
        }
        trim_char_end_exec(rest, c)
    } else {
        s.to_owned()
    }
}

/// Removes leading and trailing repetitions of the character `c`.
pub fn trim_char_exec(s: &str, c: char) -> (r: String)
    ensures
        r@ == trim_char_spec(s@, c),
{
    let st = trim_char_start_exec(s, c);
    trim_char_end_exec(st.as_str(), c)
}

/// The characters of the decimal representation of `n`.
pub open spec fn dec_digits(n: nat) -> Seq<char>
    decreases n,
{
    if n < 10 {
        seq![digit_char(n)]
    } else {
        dec_digits(n / 10).push(digit_char(n % 10))
    }
}

/// The character for a single decimal digit.
pub open spec fn digit_char(d: nat) -> char {
    if d == 0 {
        '0'
    } else if d == 1 {
        '1'
    } else if d == 2 {
        '2'
    } else if d == 3 {
        '3'
    } else if d == 4 {
        '4'
    } else if d == 5 {
        '5'
    } else if d == 6 {
        '6'
    } else if d == 7 {
        '7'
    } else if d == 8 {
        '8'
    } else {
        '9'
    }
}

fn digit_str(d: u64) -> (r: &'static str)
    requires
        d < 10,
    ensures
        r@ =~= seq![digit_char(d as nat)],
{
    let r: &'static str = if d == 0 {
        "0"
    } else if d == 1 {
        "1"
    } else if d == 2 {
        "2"
    } else if d == 3 {
        "3"
    } else if d == 4 {
        "4"
    } else if d == 5 {
        "5"
    } else if d == 6 {
        "6"
    } else if d == 7 {
        "7"
    } else if d == 8 {
        "8"
    } else {
        "9"
    };
    proof {
        reveal_strlit("0");
        reveal_strlit("1");
        reveal_strlit("2");
        reveal_strlit("3");
        reveal_strlit("4");
        reveal_strlit("5");
        reveal_strlit("6");
        reveal_strlit("7");
        reveal_strlit("8");
        reveal_strlit("9");
    }
    r
}

/// Appends the decimal representation of `n` to `s`.
pub fn append_decimal(s: &mut String, n: u64)
    ensures
        final(s)@ == old(s)@ + dec_digits(n as nat),
    decreases n,
{
    if n < 10 {
        s.append(digit_str(n));
    } else {
        append_decimal(s, n / 10);
        s.append(digit_str(n % 10));
        proof {
            assert(old(s)@ + dec_digits((n / 10) as nat) + seq![digit_char((n % 10) as nat)]
                =~= old(s)@ + dec_digits(n as nat));
        }
    }
}

/// The decimal representation of `n`, zero-padded on the left to at least
/// three characters.
pub open spec fn padded3(n: nat) -> Seq<char> {
    if n < 10 {
        seq!['0', '0'] + dec_digits(n)
    } else if n < 100 {
        seq!['0'] + dec_digits(n)
    } else {
        dec_digits(n)
    }
}

/// Appends `padded3(n)` to `s`.
pub fn append_padded3(s: &mut String, n: u64)
    ensures
        final(s)@ == old(s)@ + padded3(n as nat),
{
    if n < 10 {
        s.append("00");
        proof {
            reveal_strlit("00");
            assert("00"@ =~= seq!['0', '0']);
        }
    } else if n < 100 {
        s.append("0");
        proof {
            reveal_strlit("0");
            assert("0"@ =~= seq!['0']);
        }
    }
    append_decimal(s, n);
    proof {
        if n < 10 {
            assert(old(s)@ + seq!['0', '0'] + dec_digits(n as nat) =~= old(s)@ + padded3(n as nat));
        } else if n < 100 {
            assert(old(s)@ + seq!['0'] + dec_digits(n as nat) =~= old(s)@ + padded3(n as nat));
        }
    }
}

} // verus!
