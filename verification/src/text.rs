//! Text helpers: decimal numbers, bracketed labels, substring search, and
//! the few standard-library text operations the merge and report rely on.
use vstd::prelude::*;

verus! {

/// The characters of `s`, in order.
pub fn chars_of(s: &str) -> (v: Vec<char>)
    ensures
        v@ == s@,
{
    broadcast use vstd::string::group_string_axioms;

    let mut v: Vec<char> = Vec::new();
    for c in it: s.chars()
        invariant
            v@ == it.seq().take(it.index() as int),
    {
        v.push(c);
    }
    v
}

/// `needle` occurs in `hay` as a contiguous run of characters.
pub open spec fn has_infix(hay: Seq<char>, needle: Seq<char>) -> bool {
    exists|i: int|
        0 <= i && i + needle.len() <= hay.len() && #[trigger] hay.subrange(i, i + needle.len())
            == needle
}

/// Whether `needle` occurs in `hay`.
pub fn contains_text(hay: &str, needle: &str) -> (found: bool)
    ensures
        found == has_infix(hay@, needle@),
{
    let h = chars_of(hay);
    let n = chars_of(needle);
    if n.len() > h.len() {
        assert(!has_infix(hay@, needle@));
        return false;
    }
    if n.len() == 0 {
        assert(hay@.subrange(0int, 0int + needle@.len()) =~= needle@);
        return true;
    }
    let last = h.len() - n.len();
    let mut i: usize = 0;
    while i <= last
        invariant
            h@ == hay@,
            n@ == needle@,
            last == h@.len() - n@.len(),
            n@.len() > 0,
            h@.len() <= usize::MAX,
            i <= last + 1,
            forall|k: int| 0 <= k < i ==> #[trigger] h@.subrange(k, k + n@.len()) != n@,
        decreases last + 1 - i,
    {
        let mut j: usize = 0;
        let mut same = true;
        while j < n.len() && same
            invariant
                h@ == hay@,
                n@ == needle@,
                i <= last,
                last == h@.len() - n@.len(),
                h@.len() <= usize::MAX,
                j <= n@.len(),
                same ==> forall|m: int| 0 <= m < j ==> h@[i + m] == n@[m],
                !same ==> j < n@.len() && h@[i + j] != n@[j as int],
            decreases n@.len() - j + if same { 1int } else { 0int },
        {
            assert(i + j < h@.len());
            if h[i + j] != n[j] {
                same = false;
            } else {
                j = j + 1;
            }
        }
        if same {
            assert(h@.subrange(i as int, i + n@.len()) =~= n@);
            return true;
        }
        assert(h@.subrange(i as int, i + n@.len())[j as int] == h@[i + j]);
        i = i + 1;
    }
    assert forall|k: int|
        0 <= k && k + needle@.len() <= hay@.len() implies #[trigger] hay@.subrange(
        k,
        k + needle@.len(),
    ) != needle@ by {
        assert(k < i);
    }
    false
}

/// The decimal digit `d` as a character.
pub open spec fn digit_char(d: nat) -> char {
    (48 + d) as char
}

/// The decimal notation of `n`, without sign or leading zeros.
pub open spec fn decimal(n: nat) -> Seq<char>
    decreases n,
{
    if n < 10 {
        seq![digit_char(n)]
    } else {
        decimal(n / 10).push(digit_char(n % 10))
    }
}

/// The number that the decimal digits `s` denote.
pub open spec fn digits_value(s: Seq<char>) -> int
    decreases s.len(),
{
    if s.len() == 0 {
        0
    } else {
        digits_value(s.drop_last()) * 10 + (s.last() as int - 48)
    }
}

/// `decimal(n)` is made of decimal digits, denotes `n`, and has no leading
/// zero.
pub proof fn lemma_decimal_denotes(n: nat)
    ensures
        decimal(n).len() > 0,
        forall|k: int| 0 <= k < decimal(n).len() ==> 48 <= (#[trigger] decimal(n)[k]) as int <= 57,
        digits_value(decimal(n)) == n,
        decimal(n).len() == 1 || decimal(n)[0] != '0',
    decreases n,
{
    if n >= 10 {
        lemma_decimal_denotes(n / 10);
        let p = decimal(n / 10);
        let d = decimal(n);
        assert(d == p.push(digit_char(n % 10)));
        assert(d.drop_last() =~= p);
        assert(d.last() == digit_char(n % 10));
        assert(digit_char(n % 10) as int == 48 + n % 10);
        assert(digits_value(d) == digits_value(p) * 10 + (n % 10));
        assert(n == (n / 10) * 10 + n % 10);
        assert forall|k: int| 0 <= k < d.len() implies 48 <= (#[trigger] d[k]) as int <= 57 by {
            if k < p.len() {
                assert(d[k] == p[k]);
            }
        }
        assert(d[0] == p[0]);
        if p.len() == 1 {
            assert(p.drop_last() =~= Seq::<char>::empty());
            assert(p.last() == p[0]);
            assert(digits_value(p.drop_last()) == 0);
            assert(digits_value(p) == digits_value(p.drop_last()) * 10 + (p.last() as int - 48));
        }
    } else {
        assert(decimal(n) == seq![digit_char(n)]);
        assert(decimal(n).drop_last() =~= Seq::<char>::empty());
        assert(digit_char(n) as int == 48 + n);
        assert(digits_value(decimal(n)) == digits_value(decimal(n).drop_last()) * 10 + (
        decimal(n).last() as int - 48));
    }
}

fn digit_text(d: u64) -> (t: &'static str)
    requires
        d < 10,
    ensures
        t@ == seq![digit_char(d as nat)],
{
    if d == 0 {
        proof {
            reveal_strlit("0");
        }
        "0"
    } else if d == 1 {
        proof {
            reveal_strlit("1");
        }
        "1"
    } else if d == 2 {
        proof {
            reveal_strlit("2");
        }
        "2"
    } else if d == 3 {
        proof {
            reveal_strlit("3");
        }
        "3"
    } else if d == 4 {
        proof {
            reveal_strlit("4");
        }
        "4"
    } else if d == 5 {
        proof {
            reveal_strlit("5");
        }
        "5"
    } else if d == 6 {
        proof {
            reveal_strlit("6");
        }
        "6"
    } else if d == 7 {
        proof {
            reveal_strlit("7");
        }
        "7"
    } else if d == 8 {
        proof {
            reveal_strlit("8");
        }
        "8"
    } else {
        proof {
            reveal_strlit("9");
        }
        "9"
    }
}

/// `n` written in decimal.
pub fn decimal_text(n: u64) -> (s: String)
    ensures
        s@ == decimal(n as nat),
    decreases n,
{
    if n < 10 {
        String::from_str(digit_text(n))
    } else {
        let mut s = decimal_text(n / 10);
        s.append(digit_text(n % 10));
        s
    }
}

/// `label` between square brackets.
pub open spec fn bracketed(label: Seq<char>) -> Seq<char> {
    seq!['['] + label + seq![']']
}

/// `[label]` is `label` with one `[` before it and one `]` after it.
pub proof fn lemma_bracketed(label: Seq<char>)
    ensures
        bracketed(label).len() == label.len() + 2,
        bracketed(label)[0] == '[',
        bracketed(label)[label.len() as int + 1] == ']',
        bracketed(label).subrange(1, label.len() as int + 1) == label,
{
    assert(bracketed(label).subrange(1, label.len() as int + 1) =~= label);
}

/// `[label]`, the way results and repositories are labelled in reports.
pub fn bracket(label: &str) -> (s: String)
    ensures
        s@ == bracketed(label@),
{
    proof {
        reveal_strlit("[");
        reveal_strlit("]");
    }
    let mut s = String::from_str("[");
    s.append(label);
    s.append("]");
    s
}

/// `c` has the Unicode `White_Space` property (what `str::trim` removes).
pub open spec fn is_white_space(c: char) -> bool {
    let u = c as u32;
    (9 <= u <= 13) || u == 32 || u == 0x85 || u == 0xa0 || u == 0x1680 || (0x2000 <= u <= 0x200a)
        || u == 0x2028 || u == 0x2029 || u == 0x202f || u == 0x205f || u == 0x3000
}

/// Whether `c` is white space.
pub fn white_space(c: char) -> (b: bool)
    ensures
        b == is_white_space(c),
{
    let u = c as u32;
    (9 <= u && u <= 13) || u == 32 || u == 0x85 || u == 0xa0 || u == 0x1680 || (0x2000 <= u && u
        <= 0x200a) || u == 0x2028 || u == 0x2029 || u == 0x202f || u == 0x205f || u == 0x3000
}

/// `s` without its leading white space.
pub open spec fn trim_front(s: Seq<char>) -> Seq<char>
    decreases s.len(),
{
    if s.len() > 0 && is_white_space(s[0]) {
        trim_front(s.drop_first())
    } else {
        s
    }
}

/// `s` without its trailing white space.
pub open spec fn trim_back(s: Seq<char>) -> Seq<char>
    decreases s.len(),
{
    if s.len() > 0 && is_white_space(s.last()) {
        trim_back(s.drop_last())
    } else {
        s
    }
}

/// `s` without leading and trailing white space.
pub open spec fn trimmed(s: Seq<char>) -> Seq<char> {
    trim_back(trim_front(s))
}

proof fn lemma_trim_front_step(s: Seq<char>, i: int)
    requires
        0 <= i < s.len(),
        is_white_space(s[i]),
    ensures
        trim_front(s.subrange(i, s.len() as int)) == trim_front(s.subrange(i + 1, s.len() as int)),
{
    assert(s.subrange(i, s.len() as int).drop_first() =~= s.subrange(i + 1, s.len() as int));
}

proof fn lemma_trim_back_step(s: Seq<char>, a: int, b: int)
    requires
        0 <= a < b <= s.len(),
        is_white_space(s[b - 1]),
    ensures
        trim_back(s.subrange(a, b)) == trim_back(s.subrange(a, b - 1)),
{
    assert(s.subrange(a, b).drop_last() =~= s.subrange(a, b - 1));
}

/// Text made only of white space trims to nothing.
pub proof fn lemma_blank_trims_to_empty(s: Seq<char>)
    requires
        forall|k: int| 0 <= k < s.len() ==> is_white_space(#[trigger] s[k]),
    ensures
        trimmed(s).len() == 0,
    decreases s.len(),
{
    if s.len() > 0 {
        assert forall|k: int| 0 <= k < s.drop_first().len() implies is_white_space(
            #[trigger] s.drop_first()[k],
        ) by {
            assert(s.drop_first()[k] == s[k + 1]);
        }
        lemma_blank_trims_to_empty(s.drop_first());
        assert(trim_front(s) == trim_front(s.drop_first()));
    } else {
        assert(trim_front(s) == s);
    }
}

proof fn lemma_trim_front_index(s: Seq<char>) -> (a: int)
    ensures
        0 <= a <= s.len(),
        trim_front(s) == s.subrange(a, s.len() as int),
        forall|k: int| 0 <= k < a ==> is_white_space(#[trigger] s[k]),
        a < s.len() ==> !is_white_space(s[a]),
    decreases s.len(),
{
    if s.len() > 0 && is_white_space(s[0]) {
        let r = lemma_trim_front_index(s.drop_first());
        assert(s.drop_first().subrange(r, s.drop_first().len() as int) =~= s.subrange(
            r + 1,
            s.len() as int,
        ));
        assert forall|k: int| 0 <= k < r + 1 implies is_white_space(#[trigger] s[k]) by {
            if k > 0 {
                assert(s[k] == s.drop_first()[k - 1]);
            }
        }
        r + 1
    } else {
        assert(s.subrange(0, s.len() as int) =~= s);
        0
    }
}

proof fn lemma_trim_back_index(s: Seq<char>) -> (b: int)
    ensures
        0 <= b <= s.len(),
        trim_back(s) == s.subrange(0, b),
        forall|k: int| b <= k < s.len() ==> is_white_space(#[trigger] s[k]),
        b > 0 ==> !is_white_space(s[b - 1]),
    decreases s.len(),
{
    if s.len() > 0 && is_white_space(s.last()) {
        let r = lemma_trim_back_index(s.drop_last());
        assert(s.drop_last().subrange(0, r) =~= s.subrange(0, r));
        assert forall|k: int| r <= k < s.len() implies is_white_space(#[trigger] s[k]) by {
            if k < s.len() - 1 {
                assert(s[k] == s.drop_last()[k]);
            }
        }
        r
    } else {
        assert(s.subrange(0, s.len() as int) =~= s);
        s.len() as int
    }
}

/// Trimming keeps one contiguous run of `s`: everything before and after it
/// is white space, and the run neither starts nor ends with white space.
pub proof fn lemma_trimmed_is_core(s: Seq<char>)
    ensures
        exists|a: int, b: int|
            0 <= a <= b <= s.len() && trimmed(s) == s.subrange(a, b) && (forall|k: int|
                0 <= k < a ==> is_white_space(#[trigger] s[k])) && (forall|k: int|
                b <= k < s.len() ==> is_white_space(#[trigger] s[k])) && (a < b ==> !is_white_space(
                s[a],
            ) && !is_white_space(s[b - 1])),
{
    let a = lemma_trim_front_index(s);
    let f = trim_front(s);
    let b = lemma_trim_back_index(f);
    assert(f.subrange(0, b) =~= s.subrange(a, a + b));
    assert forall|k: int| a + b <= k < s.len() implies is_white_space(#[trigger] s[k]) by {
        assert(s[k] == f[k - a]);
    }
    if b > 0 {
        assert(f[0] == s[a]);
        assert(f[b - 1] == s[a + b - 1]);
    }
    assert(0 <= a <= a + b <= s.len() && trimmed(s) == s.subrange(a, a + b));
}

/// `s` without leading and trailing white space, like `str::trim`.
pub fn trim_text(s: &str) -> (t: &str)
    ensures
        t@ == trimmed(s@),
{
    let cs = chars_of(s);
    let n = cs.len();
    let mut a: usize = 0;
    assert(s@.subrange(0, n as int) =~= s@);
    while a < n && white_space(cs[a])
        invariant
            cs@ == s@,
            n == s@.len(),
            a <= n,
            trim_front(s@) == trim_front(s@.subrange(a as int, n as int)),
        decreases n - a,
    {
        proof {
            lemma_trim_front_step(s@, a as int);
        }
        a = a + 1;
    }
    assert(trim_front(s@.subrange(a as int, n as int)) == s@.subrange(a as int, n as int));
    let mut b: usize = n;
    while b > a && white_space(cs[b - 1])
        invariant
            cs@ == s@,
            n == s@.len(),
            a <= b <= n,
            trimmed(s@) == trim_back(s@.subrange(a as int, b as int)),
        decreases b - a,
    {
        proof {
            lemma_trim_back_step(s@, a as int, b as int);
        }
        b = b - 1;
    }
    if b > a {
        assert(s@.subrange(a as int, b as int).last() == s@[b - 1]);
    }
    assert(trim_back(s@.subrange(a as int, b as int)) == s@.subrange(a as int, b as int));
    s.substring_char(a, b)
}

/// `line` without one final `\r`.
pub open spec fn strip_cr(line: Seq<char>) -> Seq<char> {
    if line.len() > 0 && line.last() == '\r' {
        line.drop_last()
    } else {
        line
    }
}

/// The lines of `s` from the line that starts at `start`, scanning from
/// `i`: a line ends at each `\n` (one `\r` before it is dropped), and text
/// after the last `\n` is a final line when it is not empty.
pub open spec fn lines_from(s: Seq<char>, start: int, i: int) -> Seq<Seq<char>>
    decreases s.len() - i,
{
    if i >= s.len() {
        if start < s.len() {
            seq![s.subrange(start, s.len() as int)]
        } else {
            Seq::empty()
        }
    } else if s[i] == '\n' {
        seq![strip_cr(s.subrange(start, i))] + lines_from(s, i + 1, i + 1)
    } else {
        lines_from(s, start, i + 1)
    }
}

/// The lines of `s`, as `str::lines` yields them: split at `\n` or
/// `\r\n`, without the line endings, with no empty line after a final
/// line ending.
pub open spec fn lines_of(s: Seq<char>) -> Seq<Seq<char>> {
    lines_from(s, 0, 0)
}

/// The lines of `s`, like `str::lines`.
pub fn text_lines(s: &str) -> (lines: Vec<&str>)
    ensures
        lines@.map_values(|l: &str| l@) == lines_of(s@),
{
    let cs = chars_of(s);
    let n = cs.len();
    let mut lines: Vec<&str> = Vec::new();
    let mut start: usize = 0;
    let mut i: usize = 0;
    assert(lines@.map_values(|l: &str| l@) + lines_from(s@, 0, 0) =~= lines_of(s@));
    while i < n
        invariant
            cs@ == s@,
            n == s@.len(),
            start <= i <= n,
            lines@.map_values(|l: &str| l@) + lines_from(s@, start as int, i as int) == lines_of(
                s@,
            ),
        decreases n - i,
    {
        if cs[i] == '\n' {
            let end = if i > start && cs[i - 1] == '\r' {
                i - 1
            } else {
                i
            };
            let line = s.substring_char(start, end);
            proof {
                let whole = s@.subrange(start as int, i as int);
                if i > start {
                    assert(whole.last() == s@[i - 1]);
                }
                assert(line@ == strip_cr(whole));
            }
            let ghost before = lines@.map_values(|l: &str| l@);
            lines.push(line);
            assert(lines@.map_values(|l: &str| l@) =~= before.push(line@));
            assert(before + lines_from(s@, start as int, i as int) =~= lines@.map_values(
                |l: &str| l@,
            ) + lines_from(s@, i + 1, i + 1));
            start = i + 1;
        }
        i = i + 1;
    }
    if start < n {
        let ghost before = lines@.map_values(|l: &str| l@);
        lines.push(s.substring_char(start, n));
        assert(lines@.map_values(|l: &str| l@) =~= before + lines_from(s@, start as int, n as int));
    } else {
        assert(lines@.map_values(|l: &str| l@) =~= lines@.map_values(|l: &str| l@) + lines_from(
            s@,
            start as int,
            n as int,
        ));
    }
    lines
}

/// Whether `std::path::Path` considers the two paths equal (it compares
/// them component by component).
pub uninterp spec fn paths_equal(a: Seq<char>, b: Seq<char>) -> bool;

/// The two paths are the same path: identical text, or equal as `Path`
/// compares them.
pub open spec fn same_path_text(a: Seq<char>, b: Seq<char>) -> bool {
    a == b || paths_equal(a, b)
}

/// Compares two paths with `Path`'s `==`; the result is named
/// `paths_equal`. `Path`'s equality is an equivalence (`Path: Eq`), so
/// identical paths compare equal and the order of the two does not matter.
#[verifier::external_body]
pub(crate) fn same_path(a: &str, b: &str) -> (eq: bool)
    ensures
        eq == paths_equal(a@, b@),
        eq == paths_equal(b@, a@),
        a@ == b@ ==> eq,
{
    std::path::Path::new(a) == std::path::Path::new(b)
}

} // verus!
