//! String helpers shared by the classifier, the organizer and the report
//! generator: equality, ASCII lowercasing, substring search, path-name
//! splitting and decimal formatting.
//!
//! Paths are plain strings with `/` as the separator; a scanned file path
//! never ends in a separator.

use vstd::prelude::*;
use vstd::string::StrSliceExecFns;
use vstd::string::StringExecFns;

verus! {

/// Relies on `String::push`: appends the given character to the end of the
/// string.
pub assume_specification[ String::push ](s: &mut String, c: char)
    ensures
        final(s)@ == old(s)@ + seq![c],
;

/// Character-for-character string equality.
pub fn str_eq(a: &str, b: &str) -> (r: bool)
    ensures
        r == (a@ == b@),
{
    let an = a.unicode_len();
    let bn = b.unicode_len();
    if an != bn {
        assert(a@.len() != b@.len());
        return false;
    }
    let mut i: usize = 0;
    while i < an
        invariant
            an == a@.len(),
            an == b@.len(),
            i <= an,
            forall|j: int| 0 <= j < i ==> a@[j] == b@[j],
        decreases an - i,
    {
        if a.get_char(i) != b.get_char(i) {
            return false;
        }
        i += 1;
    }
    assert(a@ =~= b@);
    true
}

/// `needle` occurs as a contiguous run of characters inside `hay`.
pub open spec fn spec_contains(hay: Seq<char>, needle: Seq<char>) -> bool {
    exists|i: int|
        0 <= i <= hay.len() - needle.len() && #[trigger] hay.subrange(i, i + needle.len() as int)
            == needle
}

/// Substring search, as the ignore-pattern filter uses it.
pub fn contains_sub(hay: &str, needle: &str) -> (r: bool)
    ensures
        r == spec_contains(hay@, needle@),
{
    let hn = hay.unicode_len();
    let nn = needle.unicode_len();
    if nn > hn {
        return false;
    }
    let mut i: usize = 0;
    while i <= hn - nn
        invariant
            nn <= hn,
            hn == hay@.len(),
            nn == needle@.len(),
            i <= hn - nn + 1,
            forall|k: int|
                0 <= k < i ==> #[trigger] hay@.subrange(k, k + nn as int) != needle@,
        decreases hn - nn - i + 1,
    {
        let mut j: usize = 0;
        let mut matches: bool = true;
        while j < nn && matches
            invariant
                nn == needle@.len(),
                hn == hay@.len(),
                i + nn <= hn,
                j <= nn,
                matches ==> forall|m: int| 0 <= m < j ==> hay@[i + m] == needle@[m],
                !matches ==> exists|m: int| 0 <= m < nn && hay@[i + m] != needle@[m],
            decreases nn - j, (if matches { 1int } else { 0int }),
        {
            if hay.get_char(i + j) != needle.get_char(j) {
                matches = false;
            } else {
                j += 1;
            }
        }
        if matches {
            assert(hay@.subrange(i as int, i + nn as int) =~= needle@);
            return true;
        }
        proof {
            let m = choose|m: int| 0 <= m < nn && hay@[i + m] != needle@[m];
            assert(hay@.subrange(i as int, i + nn as int)[m] == hay@[i + m]);
        }
        i += 1;
    }
    false
}

/// ASCII uppercase letters map to lowercase; everything else is unchanged.
pub open spec fn lower_char(c: char) -> char {
    if 'A' <= c && c <= 'Z' {
        (((c as u8) + 32) as char)
    } else {
        c
    }
}

/// A character sequence with its ASCII uppercase letters lowercased.
pub open spec fn lower_seq(s: Seq<char>) -> Seq<char> {
    s.map_values(|c: char| lower_char(c))
}

/// ASCII lowercasing of a string, character by character.
pub fn to_lowercase_ascii(s: &str) -> (r: String)
    ensures
        r@ == lower_seq(s@),
{
    let n = s.unicode_len();
    let mut out = String::new();
    let mut i: usize = 0;
    while i < n
        invariant
            n == s@.len(),
            i <= n,
            out@.len() == i,
            forall|j: int| 0 <= j < i ==> out@[j] == lower_char(s@[j]),
        decreases n - i,
    {
        let c = s.get_char(i);
        if 'A' <= c && c <= 'Z' {
            out.push(((c as u8) + 32) as char);
        } else {
            out.push(c);
        }
        i += 1;
    }
    assert(out@ =~= lower_seq(s@));
    out
}

/// The character a decimal digit prints as.
pub open spec fn digit_char(d: int) -> char
    recommends
        0 <= d < 10,
{
    if d == 0 {
        '0'
    } else if d == 1 {
        '1'
    } else if d == 2 {
        '2'
    } else if d == 3 {
        '3'
    } else if d == 4 {
        '4'
    } else if d == 5 {
        '5'
    } else if d == 6 {
        '6'
    } else if d == 7 {
        '7'
    } else if d == 8 {
        '8'
    } else {
        '9'
    }
}

/// Decimal representation of a non-negative integer, most significant digit
/// first, with no leading zeros (a single `'0'` for zero).
pub open spec fn dec_rep(n: int) -> Seq<char>
    recommends
        n >= 0,
    decreases n,
{
    if n < 10 {
        seq![digit_char(n)]
    } else {
        dec_rep(n / 10) + seq![digit_char(n % 10)]
    }
}

/// Ten to the `k`th power.
pub open spec fn pow10(k: int) -> int
    decreases k,
{
    if k <= 0 {
        1
    } else {
        10 * pow10(k - 1)
    }
}

/// Decimal representation padded with `'0'` on the left to at least `width`
/// characters.
pub open spec fn padded_dec(n: int, width: int) -> Seq<char>
    recommends
        n >= 0,
    decreases width,
{
    if width <= 1 || n >= pow10(width - 1) {
        dec_rep(n)
    } else {
        seq!['0'] + padded_dec(n, width - 1)
    }
}

fn push_digit(s: &mut String, d: u64)
    requires
        d < 10,
    ensures
        final(s)@ == old(s)@ + seq![digit_char(d as int)],
{
    if d == 0 {
        s.push('0');
    } else if d == 1 {
        s.push('1');
    } else if d == 2 {
        s.push('2');
    } else if d == 3 {
        s.push('3');
    } else if d == 4 {
        s.push('4');
    } else if d == 5 {
        s.push('5');
    } else if d == 6 {
        s.push('6');
    } else if d == 7 {
        s.push('7');
    } else if d == 8 {
        s.push('8');
    } else {
        s.push('9');
    }
}

/// Appends the decimal representation of `n`.
pub fn push_decimal(s: &mut String, n: u64)
    ensures
        final(s)@ == old(s)@ + dec_rep(n as int),
    decreases n,
{
    if n >= 10 {
        push_decimal(s, n / 10);
    }
    push_digit(s, n % 10);
    proof {
        if n < 10 {
            assert(n % 10 == n);
            assert(old(s)@ + dec_rep(n as int) =~= old(s)@ + seq![digit_char(n as int)]);
        } else {
            assert((old(s)@ + dec_rep(n as int / 10)) + seq![digit_char(n as int % 10)] =~= old(
                s,
            )@ + dec_rep(n as int));
        }
    }
}

/// Appends the decimal representation of `n`, left-padded with zeros to at
/// least `width` characters.
pub fn push_padded_decimal(s: &mut String, n: u64, width: u64)
    requires
        width <= 4,
    ensures
        final(s)@ == old(s)@ + padded_dec(n as int, width as int),
    decreases width,
{
    let threshold: u64 = if width <= 1 {
        1
    } else if width == 2 {
        10
    } else if width == 3 {
        100
    } else {
        1000
    };
    proof {
        if width > 1 {
            assert(pow10(0) == 1);
            assert(pow10(1) == 10);
            assert(pow10(2) == 100);
            assert(pow10(3) == 1000);
            assert(threshold as int == pow10(width - 1));
        }
    }
    if width <= 1 || n >= threshold {
        push_decimal(s, n);
    } else {
        s.push('0');
        push_padded_decimal(s, n, width - 1);
        proof {
            assert((old(s)@ + seq!['0']) + padded_dec(n as int, width - 1) =~= old(s)@ + (seq![
                '0',
            ] + padded_dec(n as int, width - 1)));
        }
    }
}

/// The decimal representation of `n` as a fresh string.
pub fn u64_to_string(n: u64) -> (r: String)
    ensures
        r@ == dec_rep(n as int),
{
    let mut s = String::new();
    push_decimal(&mut s, n);
    proof {
        assert(Seq::<char>::empty() + dec_rep(n as int) =~= dec_rep(n as int));
    }
    s
}

/// Index of the last occurrence of `c` in `s`, if any.
pub fn last_char_index(s: &str, c: char) -> (r: Option<usize>)
    ensures
        match r {
            Some(j) => j < s@.len() && s@[j as int] == c && forall|k: int|
                j < k < s@.len() ==> s@[k] != c,
            None => forall|k: int| 0 <= k < s@.len() ==> s@[k] != c,
        },
{
    let n = s.unicode_len();
    let mut i: usize = 0;
    let mut found: Option<usize> = None;
    while i < n
        invariant
            n == s@.len(),
            i <= n,
            match found {
                Some(j) => j < i && s@[j as int] == c && forall|k: int| j < k < i ==> s@[k] != c,
                None => forall|k: int| 0 <= k < i ==> s@[k] != c,
            },
        decreases n - i,
    {
        if s.get_char(i) == c {
            found = Some(i);
        }
        i += 1;
    }
    found
}

/// The final path component: the characters after the last `/`.
///
/// A path that ends in `/` has an empty file name; scanned file paths never
/// do.
pub open spec fn file_name_spec(p: Seq<char>) -> Seq<char>
    decreases p.len(),
{
    if p.len() == 0 {
        p
    } else if p.last() == '/' {
        Seq::<char>::empty()
    } else {
        file_name_spec(p.drop_last()) + seq![p.last()]
    }
}

proof fn lemma_file_name_no_sep(p: Seq<char>)
    requires
        forall|k: int| 0 <= k < p.len() ==> p[k] != '/',
    ensures
        file_name_spec(p) == p,
    decreases p.len(),
{
    if p.len() > 0 {
        lemma_file_name_no_sep(p.drop_last());
        assert(file_name_spec(p.drop_last()) + seq![p.last()] =~= p);
    }
}

proof fn lemma_file_name_after_sep(p: Seq<char>, j: int)
    requires
        0 <= j < p.len(),
        p[j] == '/',
        forall|k: int| j < k < p.len() ==> p[k] != '/',
    ensures
        file_name_spec(p) == p.subrange(j + 1, p.len() as int),
    decreases p.len(),
{
    if j == p.len() - 1 {
        assert(file_name_spec(p) =~= p.subrange(j + 1, p.len() as int));
    } else {
        lemma_file_name_after_sep(p.drop_last(), j);
        assert(p.drop_last().subrange(j + 1, p.len() - 1) + seq![p.last()] =~= p.subrange(
            j + 1,
            p.len() as int,
        ));
    }
}

/// The final path component of `path`, as a fresh string.
pub fn file_name_of(path: &str) -> (r: String)
    ensures
        r@ == file_name_spec(path@),
{
    let n = path.unicode_len();
    match last_char_index(path, '/') {
        None => {
            proof {
                lemma_file_name_no_sep(path@);
            }
            path.to_owned()
        },
        Some(j) => {
            proof {
                lemma_file_name_after_sep(path@, j as int);
            }
            path.substring_char(j + 1, n).to_owned()
        },
    }
}

/// The characters after the last `.` of a file name, tracked bottom-up;
/// `None` when the name holds no `.` at all.
pub open spec fn ext_rec(n: Seq<char>) -> Option<Seq<char>>
    decreases n.len(),
{
    if n.len() == 0 {
        None
    } else if n.last() == '.' {
        Some(Seq::<char>::empty())
    } else {
        match ext_rec(n.drop_last()) {
            Some(e) => Some(e + seq![n.last()]),
            None => None,
        }
    }
}

proof fn lemma_ext_rec_none(n: Seq<char>)
    requires
        forall|k: int| 0 <= k < n.len() ==> n[k] != '.',
    ensures
        ext_rec(n) == None::<Seq<char>>,
    decreases n.len(),
{
    if n.len() > 0 {
        lemma_ext_rec_none(n.drop_last());
    }
}

proof fn lemma_ext_rec_last_dot(n: Seq<char>, j: int)
    requires
        0 <= j < n.len(),
        n[j] == '.',
        forall|k: int| j < k < n.len() ==> n[k] != '.',
    ensures
        ext_rec(n) == Some(n.subrange(j + 1, n.len() as int)),
    decreases n.len(),
{
    if j == n.len() - 1 {
        assert(n.subrange(j + 1, n.len() as int) =~= Seq::<char>::empty());
    } else {
        lemma_ext_rec_last_dot(n.drop_last(), j);
        assert(n.drop_last().subrange(j + 1, n.len() - 1) + seq![n.last()] =~= n.subrange(
            j + 1,
            n.len() as int,
        ));
    }
}

/// The extension of a file name: the characters after the last `.`, except
/// that a name whose only `.` leads it (a dotfile), and the name `..`, have
/// none.
pub open spec fn extension_spec(name: Seq<char>) -> Option<Seq<char>> {
    if name == seq!['.', '.'] {
        None
    } else if name.len() > 0 && name[0] == '.' && ext_rec(name.subrange(1, name.len() as int))
        == None::<Seq<char>> {
        None
    } else {
        ext_rec(name)
    }
}

/// The stem of a file name: what precedes its extension, or the whole name.
pub open spec fn stem_spec(name: Seq<char>) -> Seq<char> {
    match extension_spec(name) {
        Some(e) => name.take(name.len() - e.len() - 1),
        None => name,
    }
}

/// The extension of the file name `name`, as a fresh string.
pub fn extension_of_name(name: &str) -> (r: Option<String>)
    ensures
        match r {
            Some(e) => extension_spec(name@) == Some(e@),
            None => extension_spec(name@) == None::<Seq<char>>,
        },
{
    proof {
        reveal_strlit("..");
        assert(".."@ =~= seq!['.', '.']);
    }
    if str_eq(name, "..") {
        assert(name@ == seq!['.', '.']);
        return None;
    }
    assert(name@ != seq!['.', '.']);
    let n = name.unicode_len();
    match last_char_index(name, '.') {
        None => {
            proof {
                lemma_ext_rec_none(name@);
            }
            None
        },
        Some(j) => {
            if j == 0 {
                proof {
                    assert(forall|k: int|
                        0 <= k < name@.subrange(1, name@.len() as int).len() ==> name@.subrange(
                            1,
                            name@.len() as int,
                        )[k] == name@[k + 1]);
                    lemma_ext_rec_none(name@.subrange(1, name@.len() as int));
                }
                None
            } else {
                proof {
                    lemma_ext_rec_last_dot(name@, j as int);
                    if name@[0] == '.' {
                        let sub = name@.subrange(1, name@.len() as int);
                        assert(sub[j - 1] == '.');
                        assert(forall|k: int| j - 1 < k < sub.len() ==> sub[k] != '.');
                        lemma_ext_rec_last_dot(sub, j - 1);
                    }
                }
                Some(name.substring_char(j + 1, n).to_owned())
            }
        },
    }
}

/// The stem of the file name `name`, as a fresh string.
pub fn file_stem_of(name: &str) -> (r: String)
    ensures
        r@ == stem_spec(name@),
{
    proof {
        reveal_strlit("..");
        assert(".."@ =~= seq!['.', '.']);
    }
    if str_eq(name, "..") {
        assert(name@ == seq!['.', '.']);
        return name.to_owned();
    }
    assert(name@ != seq!['.', '.']);
    let n = name.unicode_len();
    match last_char_index(name, '.') {
        None => {
            proof {
                lemma_ext_rec_none(name@);
            }
            name.to_owned()
        },
        Some(j) => {
            if j == 0 {
                proof {
                    assert(forall|k: int|
                        0 <= k < name@.subrange(1, name@.len() as int).len() ==> name@.subrange(
                            1,
                            name@.len() as int,
                        )[k] == name@[k + 1]);
                    lemma_ext_rec_none(name@.subrange(1, name@.len() as int));
                }
                name.to_owned()
            } else {
                proof {
                    lemma_ext_rec_last_dot(name@, j as int);
                    if name@[0] == '.' {
                        let sub = name@.subrange(1, name@.len() as int);
                        assert(sub[j - 1] == '.');
                        lemma_ext_rec_last_dot(sub, j - 1);
                    }
                    assert(name@.take(j as int) =~= name@.take(
                        name@.len() - name@.subrange(j + 1, name@.len() as int).len() - 1,
                    ));
                }
                let r = name.substring_char(0, j).to_owned();
                assert(r@ =~= name@.take(j as int));
                r
            }
        },
    }
}

/// Index of the first occurrence of `c` in `s`, if any.
pub fn first_char_index(s: &str, c: char) -> (r: Option<usize>)
    ensures
        match r {
            Some(j) => j < s@.len() && s@[j as int] == c && forall|k: int|
                0 <= k < j ==> s@[k] != c,
            None => forall|k: int| 0 <= k < s@.len() ==> s@[k] != c,
        },
{
    let n = s.unicode_len();
    let mut i: usize = 0;
    while i < n
        invariant
            n == s@.len(),
            i <= n,
            forall|k: int| 0 <= k < i ==> s@[k] != c,
        decreases n - i,
    {
        if s.get_char(i) == c {
            return Some(i);
        }
        i += 1;
    }
    None
}

/// The ASCII whitespace characters that extension lists are trimmed of.
pub open spec fn is_space(c: char) -> bool {
    c == ' ' || c == '\t' || c == '\n' || c == '\r'
}

/// `s` without its leading whitespace.
pub open spec fn trim_start_spec(s: Seq<char>) -> Seq<char>
    decreases s.len(),
{
    if s.len() > 0 && is_space(s[0]) {
        trim_start_spec(s.subrange(1, s.len() as int))
    } else {
        s
    }
}

/// `s` without its trailing whitespace.
pub open spec fn trim_end_spec(s: Seq<char>) -> Seq<char>
    decreases s.len(),
{
    if s.len() > 0 && is_space(s.last()) {
        trim_end_spec(s.drop_last())
    } else {
        s
    }
}

/// `s` without leading and trailing whitespace.
pub open spec fn trim_spec(s: Seq<char>) -> Seq<char> {
    trim_end_spec(trim_start_spec(s))
}

proof fn lemma_trim_start(s: Seq<char>, a: int)
    requires
        0 <= a <= s.len(),
        forall|k: int| 0 <= k < a ==> is_space(s[k]),
        a < s.len() ==> !is_space(s[a]),
    ensures
        trim_start_spec(s) == s.subrange(a, s.len() as int),
    decreases a,
{
    if a == 0 {
        assert(s.subrange(0, s.len() as int) =~= s);
    } else {
        let tail = s.subrange(1, s.len() as int);
        lemma_trim_start(tail, a - 1);
        assert(tail.subrange(a - 1, tail.len() as int) =~= s.subrange(a, s.len() as int));
    }
}

proof fn lemma_trim_end(s: Seq<char>, b: int)
    requires
        0 <= b <= s.len(),
        forall|k: int| b <= k < s.len() ==> is_space(s[k]),
        b > 0 ==> !is_space(s[b - 1]),
    ensures
        trim_end_spec(s) == s.take(b),
    decreases s.len(),
{
    if b == s.len() {
        if s.len() > 0 {
            assert(s.take(b) =~= s);
        } else {
            assert(s.take(b) =~= s);
        }
    } else {
        lemma_trim_end(s.drop_last(), b);
        assert(s.drop_last().take(b) =~= s.take(b));
    }
}

fn is_space_char(c: char) -> (r: bool)
    ensures
        r == is_space(c),
{
    c == ' ' || c == '\t' || c == '\n' || c == '\r'
}

/// `s` with leading and trailing ASCII whitespace removed, as a fresh
/// string.
pub fn trim_str(s: &str) -> (r: String)
    ensures
        r@ == trim_spec(s@),
{
    let n = s.unicode_len();
    let mut a: usize = 0;
    while a < n && is_space_char(s.get_char(a))
        invariant
            n == s@.len(),
            a <= n,
            forall|k: int| 0 <= k < a ==> is_space(s@[k]),
        decreases n - a,
    {
        a += 1;
    }
    proof {
        lemma_trim_start(s@, a as int);
    }
    if a == n {
        proof {
            assert(s@.subrange(a as int, s@.len() as int) =~= Seq::<char>::empty());
        }
        return String::new();
    }
    let mut b: usize = n;
    while b > a + 1 && is_space_char(s.get_char(b - 1))
        invariant
            n == s@.len(),
            a < n,
            a + 1 <= b <= n,
            forall|k: int| b <= k < n ==> is_space(s@[k]),
        decreases b,
    {
        b -= 1;
    }
    let ghost mid = s@.subrange(a as int, s@.len() as int);
    proof {
        if is_space(s@[b - 1]) {
            assert(b == a + 1);
            assert(!is_space(s@[a as int]));
            assert(false);
        }
        assert(forall|k: int| 0 <= k < mid.len() ==> mid[k] == s@[k + a]);
        lemma_trim_end(mid, b - a);
        assert(mid.take(b - a) =~= s@.subrange(a as int, b as int));
    }
    let r = s.substring_char(a, b).to_owned();
    r
}

/// `s` cut at every comma, in order; the empty string has one empty piece.
pub open spec fn split_commas(s: Seq<char>) -> Seq<Seq<char>>
    decreases s.len(),
{
    if s.len() == 0 {
        seq![Seq::<char>::empty()]
    } else {
        let rest = split_commas(s.drop_last());
        if s.last() == ',' {
            rest + seq![Seq::<char>::empty()]
        } else {
            rest.update(rest.len() - 1, rest.last() + seq![s.last()])
        }
    }
}

proof fn lemma_split_commas_len(s: Seq<char>)
    ensures
        split_commas(s).len() >= 1,
    decreases s.len(),
{
    if s.len() > 0 {
        lemma_split_commas_len(s.drop_last());
    }
}

/// Cuts `s` at every comma and trims each piece.
pub fn split_and_trim(s: &str) -> (r: Vec<String>)
    ensures
        r@.len() == split_commas(s@).len(),
        forall|i: int|
            0 <= i < r@.len() ==> (#[trigger] r@[i])@ == trim_spec(split_commas(s@)[i]),
{
    let n = s.unicode_len();
    let mut done: Vec<String> = Vec::new();
    let mut cur = String::new();
    let mut i: usize = 0;
    proof {
        lemma_split_commas_len(s@.take(0));
        assert(s@.take(0) =~= Seq::<char>::empty());
    }
    while i < n
        invariant
            n == s@.len(),
            i <= n,
            split_commas(s@.take(i as int)).len() == done@.len() + 1,
            forall|j: int|
                0 <= j < done@.len() ==> (#[trigger] done@[j])@ == trim_spec(
                    split_commas(s@.take(i as int))[j],
                ),
            cur@ == split_commas(s@.take(i as int)).last(),
        decreases n - i,
    {
        proof {
            assert(s@.take(i + 1).drop_last() =~= s@.take(i as int));
            lemma_split_commas_len(s@.take(i as int));
        }
        let c = s.get_char(i);
        if c == ',' {
            let piece = trim_str(cur.as_str());
            done.push(piece);
            cur = String::new();
        } else {
            cur.push(c);
        }
        i += 1;
    }
    proof {
        assert(s@.take(n as int) =~= s@);
        lemma_split_commas_len(s@);
    }
    let piece = trim_str(cur.as_str());
    done.push(piece);
    done
}

/// Index of the first occurrence of `c`, if any, tracked from the front.
pub open spec fn first_at(s: Seq<char>, c: char) -> Option<int>
    decreases s.len(),
{
    if s.len() == 0 {
        None
    } else if s[0] == c {
        Some(0)
    } else {
        match first_at(s.subrange(1, s.len() as int), c) {
            Some(j) => Some(j + 1),
            None => None,
        }
    }
}

proof fn lemma_first_at_none(s: Seq<char>, c: char)
    requires
        forall|k: int| 0 <= k < s.len() ==> s[k] != c,
    ensures
        first_at(s, c) == None::<int>,
    decreases s.len(),
{
    if s.len() > 0 {
        lemma_first_at_none(s.subrange(1, s.len() as int), c);
    }
}

proof fn lemma_first_at_some(s: Seq<char>, c: char, j: int)
    requires
        0 <= j < s.len(),
        s[j] == c,
        forall|k: int| 0 <= k < j ==> s[k] != c,
    ensures
        first_at(s, c) == Some(j),
    decreases s.len(),
{
    if j > 0 {
        let tail = s.subrange(1, s.len() as int);
        assert(tail[j - 1] == c);
        lemma_first_at_some(tail, c, j - 1);
    }
}

/// Resolves the exec search for the first occurrence against `first_at`.
pub proof fn lemma_first_index(s: Seq<char>, c: char, r: Option<usize>)
    requires
        match r {
            Some(j) => j < s.len() && s[j as int] == c && forall|k: int| 0 <= k < j ==> s[k] != c,
            None => forall|k: int| 0 <= k < s.len() ==> s[k] != c,
        },
    ensures
        match r {
            Some(j) => first_at(s, c) == Some(j as int),
            None => first_at(s, c) == None::<int>,
        },
{
    match r {
        Some(j) => lemma_first_at_some(s, c, j as int),
        None => lemma_first_at_none(s, c),
    }
}

} // verus!
