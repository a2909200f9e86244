use vstd::prelude::*;

verus! {

/// The characters of `s`, in order.
pub fn chars_of(s: &str) -> (res: Vec<char>)
    ensures
        res@ == s@,
{
    let mut res: Vec<char> = Vec::new();
    for c in it: s.chars()
        invariant
            res@ == it.seq().take(it.index() as int),
    {
        res.push(c);
    }
    res
}

/// Appends one character to a string (`String::push`).
#[verifier::external_body]
pub(crate) fn push_char(s: &mut String, c: char)
    ensures
        final(s)@ == old(s)@.push(c),
{
    s.push(c);
}

pub fn string_of(cs: &Vec<char>) -> (res: String)
    ensures
        res@ == cs@,
{
    let mut res = String::new();
    let mut i: usize = 0;
    while i < cs.len()
        invariant
            i <= cs.len(),
            res@ == cs@.take(i as int),
        decreases cs.len() - i,
    {
        push_char(&mut res, cs[i]);
        assert(cs@.take(i + 1) == cs@.take(i as int).push(cs@[i as int]));
        i = i + 1;
    }
    assert(cs@.take(cs.len() as int) == cs@);
    res
}


/// Whether a regular file exists at `path` (`Path::is_file`). What is on disk
/// decides the result, so nothing is promised of it.
#[verifier::external_body]
pub(crate) fn path_is_file(path: &str) -> bool {
    std::path::Path::new(path).is_file()
}


/// Whether anything exists at `path` (`Path::exists`). What is on disk
/// decides the result, so nothing is promised of it.
#[verifier::external_body]
pub(crate) fn path_exists(path: &str) -> bool {
    std::path::Path::new(path).exists()
}

/// Whether a directory exists at `path` (`Path::is_dir`). What is on disk
/// decides the result, so nothing is promised of it.
#[verifier::external_body]
pub(crate) fn path_is_dir(path: &str) -> bool {
    std::path::Path::new(path).is_dir()
}

/// Whether two texts are equal.
pub fn str_eq(a: &str, b: &str) -> (res: bool)
    ensures
        res == (a@ == b@),
{
    let x = chars_of(a);
    let y = chars_of(b);
    crate::paths::chars_eq(&x, &y)
}

/// Whether two strings are equal.
pub fn string_eq(a: &String, b: &String) -> (res: bool)
    ensures
        res == (a@ == b@),
{
    str_eq(a.as_str(), b.as_str())
}

/// The views of a sequence of strings.
pub open spec fn strs(v: Seq<String>) -> Seq<Seq<char>> {
    v.map_values(|s: String| s@)
}

/// Whether `v` holds a string equal to `s`.
pub fn contains_string(v: &Vec<String>, s: &String) -> (res: bool)
    ensures
        res == strs(v@).contains(s@),
{
    let mut i: usize = 0;
    while i < v.len()
        invariant
            i <= v.len(),
            forall|k: int| 0 <= k < i ==> strs(v@)[k] != s@,
        decreases v.len() - i,
    {
        if string_eq(&v[i], s) {
            assert(strs(v@)[i as int] == s@);
            return true;
        }
        i = i + 1;
    }
    false
}

/// A copy of a vector of strings.
pub fn copy_strings(v: &Vec<String>) -> (res: Vec<String>)
    ensures
        strs(res@) == strs(v@),
{
    let mut out: Vec<String> = Vec::new();
    let mut i: usize = 0;
    while i < v.len()
        invariant
            i <= v.len(),
            strs(out@) =~= strs(v@).take(i as int),
        decreases v.len() - i,
    {
        let ghost o = strs(out@);
        out.push(v[i].clone());
        assert(strs(out@) =~= o.push(strs(v@)[i as int]));
        i = i + 1;
    }
    assert(strs(v@).take(v.len() as int) =~= strs(v@));
    out
}

/// The view of an optional string.
pub open spec fn opt_str(o: Option<String>) -> Option<Seq<char>> {
    match o {
        Some(s) => Some(s@),
        None => None,
    }
}

/// A copy of an optional string.
pub fn copy_opt(o: &Option<String>) -> (res: Option<String>)
    ensures
        opt_str(res) == opt_str(*o),
{
    match o {
        Some(s) => Some(s.clone()),
        None => None,
    }
}

/// The parts put one after another with `sep` between each two.
pub open spec fn joined(parts: Seq<Seq<char>>, sep: Seq<char>) -> Seq<char>
    decreases parts.len(),
{
    if parts.len() == 0 {
        Seq::<char>::empty()
    } else if parts.len() == 1 {
        parts[0]
    } else {
        joined(parts.drop_last(), sep) + sep + parts.last()
    }
}

/// The strings of `parts` joined with `sep` between each two.
pub fn join_strings(parts: &Vec<String>, sep: &str) -> (res: String)
    ensures
        res@ == joined(strs(parts@), sep@),
{
    let mut out = String::new();
    let ghost ps = strs(parts@);
    let mut i: usize = 0;
    while i < parts.len()
        invariant
            i <= parts.len(),
            ps == strs(parts@),
            out@ == joined(ps.take(i as int), sep@),
        decreases parts.len() - i,
    {
        assert(ps.take(i + 1).drop_last() =~= ps.take(i as int));
        if i > 0 {
            out.append(sep);
        }
        out.append(parts[i].as_str());
        i = i + 1;
    }
    assert(ps.take(parts.len() as int) =~= ps);
    out
}

/// The decimal digit character of `d` (below ten).
pub open spec fn digit_char(d: nat) -> char {
    (('0' as int) + d) as char
}

/// The decimal text of `n`, without leading zeros.
pub open spec fn decimal(n: nat) -> Seq<char>
    decreases n,
{
    if n < 10 {
        seq![digit_char(n)]
    } else {
        decimal(n / 10).push(digit_char(n % 10))
    }
}

/// The decimal text of `n` (as `to_string` writes it).
pub fn usize_text(n: usize) -> (res: String)
    ensures
        res@ == decimal(n as nat),
{
    let mut rev: Vec<char> = Vec::new();
    let mut m: usize = n;
    loop
        invariant_except_break
            decimal(n as nat) == decimal(m as nat) + rev@.reverse(),
        ensures
            decimal(n as nat) == rev@.reverse(),
        decreases m,
    {
        let c = char_of_digit(m % 10);
        let ghost old_rev = rev@;
        rev.push(c);
        assert(rev@.reverse() =~= seq![c] + old_rev.reverse());
        if m < 10 {
            assert(decimal(m as nat) == seq![c]);
            break;
        }
        assert(decimal(m as nat) == decimal((m / 10) as nat).push(c));
        assert(decimal((m / 10) as nat) + rev@.reverse() =~= decimal((m / 10) as nat).push(c) + old_rev.reverse());
        m = m / 10;
    }
    let mut out: Vec<char> = Vec::new();
    let mut k: usize = rev.len();
    while k > 0
        invariant
            k <= rev.len(),
            out@ =~= rev@.reverse().take((rev.len() - k) as int),
        decreases k,
    {
        k = k - 1;
        out.push(rev[k]);
    }
    string_of(&out)
}

/// The decimal text of `n`.
pub fn u64_text(n: u64) -> (res: String)
    ensures
        res@ == decimal(n as nat),
{
    let mut rev: Vec<char> = Vec::new();
    let mut m: u64 = n;
    loop
        invariant_except_break
            decimal(n as nat) == decimal(m as nat) + rev@.reverse(),
        ensures
            decimal(n as nat) == rev@.reverse(),
        decreases m,
    {
        let c = char_of_digit((m % 10) as usize);
        let ghost old_rev = rev@;
        rev.push(c);
        assert(rev@.reverse() =~= seq![c] + old_rev.reverse());
        if m < 10 {
            assert(decimal(m as nat) == seq![c]);
            break;
        }
        assert(decimal(m as nat) == decimal((m / 10) as nat).push(c));
        assert(decimal((m / 10) as nat) + rev@.reverse() =~= decimal((m / 10) as nat).push(c) + old_rev.reverse());
        m = m / 10;
    }
    let mut out: Vec<char> = Vec::new();
    let mut k: usize = rev.len();
    while k > 0
        invariant
            k <= rev.len(),
            out@ =~= rev@.reverse().take((rev.len() - k) as int),
        decreases k,
    {
        k = k - 1;
        out.push(rev[k]);
    }
    string_of(&out)
}

/// The decimal text of a whole number, with a minus sign where it is negative.
pub open spec fn signed_decimal(n: int) -> Seq<char> {
    if n < 0 {
        "-"@ + decimal((-n) as nat)
    } else {
        decimal(n as nat)
    }
}

/// The decimal text of `n` (as `to_string` writes it).
pub fn i32_text(n: i32) -> (res: String)
    ensures
        res@ == signed_decimal(n as int),
{
    if n < 0 {
        let m: u64 = (0i64 - (n as i64)) as u64;
        let mut s = String::from_str("-");
        s.append(u64_text(m).as_str());
        s
    } else {
        u64_text(n as u64)
    }
}

/// The character of a decimal digit.
fn char_of_digit(d: usize) -> (c: char)
    requires
        d < 10,
    ensures
        c == digit_char(d as nat),
{
    if d == 0 { '0' } else if d == 1 { '1' } else if d == 2 { '2' } else if d == 3 { '3' }
    else if d == 4 { '4' } else if d == 5 { '5' } else if d == 6 { '6' } else if d == 7 { '7' }
    else if d == 8 { '8' } else { '9' }
}

/// Whether `t` occurs in `s`.
pub open spec fn contains_text(s: Seq<char>, t: Seq<char>) -> bool {
    exists|i: int| 0 <= i && i + t.len() <= s.len() && #[trigger] s.subrange(i, i + t.len()) == t
}

/// Whether `t` occurs in `s`.
pub fn str_contains(s: &str, t: &str) -> (res: bool)
    ensures
        res == contains_text(s@, t@),
{
    let a = chars_of(s);
    let b = chars_of(t);
    if b.len() > a.len() {
        return false;
    }
    let mut i: usize = 0;
    while i <= a.len() - b.len()
        invariant
            a@ == s@,
            b@ == t@,
            b.len() <= a.len(),
            i <= a.len() - b.len() + 1,
            forall|k: int| 0 <= k < i ==> #[trigger] a@.subrange(k, k + b.len()) != b@,
        decreases a.len() - i,
    {
        let mut j: usize = 0;
        let mut same = true;
        while j < b.len()
            invariant
                j <= b.len(),
                i + b.len() <= a.len(),
                same == (a@.subrange(i as int, i + j) =~= b@.take(j as int)),
            decreases b.len() - j,
        {
            if a[i + j] != b[j] {
                same = false;
            }
            proof {
                if same {
                    assert(a@.subrange(i as int, i + j + 1) =~= b@.take(j + 1));
                } else {
                    assert(a@.subrange(i as int, i + j + 1)[j as int] == a@[i + j]);
                }
            }
            j = j + 1;
        }
        assert(b@.take(b.len() as int) =~= b@);
        if same {
            return true;
        }
        i = i + 1;
    }
    false
}

/// The texts between the line feeds of `s` (always at least one, maybe empty).
pub open spec fn nl_segments(s: Seq<char>) -> Seq<Seq<char>>
    decreases s.len(),
{
    if s.len() == 0 {
        seq![Seq::<char>::empty()]
    } else {
        let prev = nl_segments(s.drop_last());
        if s.last() == '\n' {
            prev.push(Seq::<char>::empty())
        } else {
            prev.update(prev.len() - 1, prev.last().push(s.last()))
        }
    }
}

proof fn lemma_nl_segments_nonempty(s: Seq<char>)
    ensures
        nl_segments(s).len() >= 1,
    decreases s.len(),
{
    if s.len() > 0 {
        lemma_nl_segments_nonempty(s.drop_last());
    }
}

/// A line without the carriage return that ended it.
pub open spec fn strip_cr(l: Seq<char>) -> Seq<char> {
    if l.len() > 0 && l.last() == '\r' {
        l.drop_last()
    } else {
        l
    }
}

/// The lines of a text (as `str::lines` gives them): split at line feeds,
/// each without a carriage return before its line feed, the last one only
/// where it is not empty.
pub open spec fn text_lines(s: Seq<char>) -> Seq<Seq<char>> {
    let segs = nl_segments(s);
    let init = segs.drop_last().map_values(|l: Seq<char>| strip_cr(l));
    if segs.last().len() == 0 {
        init
    } else {
        init.push(segs.last())
    }
}

/// The lines of a text.
pub fn lines_of(s: &str) -> (res: Vec<Vec<char>>)
    ensures
        res@.map_values(|v: Vec<char>| v@) == text_lines(s@),
{
    let cs = chars_of(s);
    let mut done: Vec<Vec<char>> = Vec::new();
    let mut cur: Vec<char> = Vec::new();
    let mut i: usize = 0;
    assert(cs@.take(0) =~= Seq::<char>::empty());
    while i < cs.len()
        invariant
            i <= cs.len(),
            cs@ == s@,
            nl_segments(cs@.take(i as int)).len() >= 1,
            done@.map_values(|v: Vec<char>| v@) =~= nl_segments(cs@.take(i as int)).drop_last().map_values(|l: Seq<char>| strip_cr(l)),
            cur@ == nl_segments(cs@.take(i as int)).last(),
        decreases cs.len() - i,
    {
        let c = cs[i];
        let ghost segs = nl_segments(cs@.take(i as int));
        assert(cs@.take(i + 1).drop_last() =~= cs@.take(i as int));
        assert(cs@.take(i + 1).last() == c);
        if c == '\n' {
            let mut line = cur;
            if line.len() > 0 && line[line.len() - 1] == '\r' {
                line.pop();
                assert(line@ =~= strip_cr(segs.last()));
            }
            let ghost o = done@.map_values(|v: Vec<char>| v@);
            done.push(line);
            assert(done@.map_values(|v: Vec<char>| v@) =~= o.push(strip_cr(segs.last())));
            assert(segs.push(Seq::<char>::empty()).drop_last() =~= segs);
            assert(segs =~= segs.drop_last().push(segs.last()));
            cur = Vec::new();
        } else {
            cur.push(c);
            assert(segs.update(segs.len() - 1, segs.last().push(c)).drop_last() =~= segs.drop_last());
        }
        i = i + 1;
    }
    assert(cs@.take(cs.len() as int) =~= cs@);
    if cur.len() > 0 {
        done.push(cur);
    }
    done
}

/// The numbers (counted from one) of the lines of `lines` that hold `value`.
pub open spec fn lines_holding(lines: Seq<Seq<char>>, value: Seq<char>) -> Seq<usize>
    decreases lines.len(),
{
    if lines.len() == 0 {
        Seq::<usize>::empty()
    } else {
        let r = lines_holding(lines.drop_last(), value);
        if contains_text(lines.last(), value) {
            r.push(lines.len() as usize)
        } else {
            r
        }
    }
}

/// The numbers (counted from one) of the lines of `contents` that hold `value`.
pub fn find_str_in_lines(contents: &str, value: &str) -> (res: Vec<usize>)
    ensures
        res@ == lines_holding(text_lines(contents@), value@),
{
    let lines = lines_of(contents);
    let ghost ls = lines@.map_values(|v: Vec<char>| v@);
    let mut out: Vec<usize> = Vec::new();
    let mut i: usize = 0;
    assert(ls.take(0) =~= Seq::<Seq<char>>::empty());
    while i < lines.len()
        invariant
            i <= lines.len(),
            ls == lines@.map_values(|v: Vec<char>| v@),
            out@ == lines_holding(ls.take(i as int), value@),
        decreases lines.len() - i,
    {
        assert(ls.take(i + 1).drop_last() =~= ls.take(i as int));
        assert(ls.take(i + 1).last() == lines@[i as int]@);
        let text = string_of(&lines[i]);
        if str_contains(text.as_str(), value) {
            out.push(i + 1);
        }
        i = i + 1;
    }
    assert(ls.take(lines.len() as int) =~= ls);
    out
}

/// Pushes a copy of `s` onto `v`.
pub fn push_str(v: &mut Vec<String>, s: &str)
    ensures
        strs(final(v)@) == strs(old(v)@).push(s@),
{
    let ghost o = strs(v@);
    v.push(s.to_string());
    assert(strs(v@) =~= o.push(s@));
}

/// Whether `c` is an ASCII decimal digit.
pub open spec fn is_digit(c: char) -> bool {
    '0' <= c && c <= '9'
}

/// The number that a run of decimal digits denotes.
pub open spec fn digits_value(s: Seq<char>) -> nat
    decreases s.len(),
{
    if s.len() == 0 {
        0
    } else {
        digits_value(s.drop_last()) * 10 + ((s.last() as int) - ('0' as int)) as nat
    }
}

/// Whether every character of `d` is a decimal digit.
pub open spec fn all_digits(d: Seq<char>) -> bool {
    forall|i: int| 0 <= i < d.len() ==> is_digit(#[trigger] d[i])
}

/// The characters of `s` that denote digits: all but a leading `+`.
pub open spec fn unsigned_digits(s: Seq<char>) -> Seq<char> {
    if s.len() > 0 && s[0] == '+' { s.drop_first() } else { s }
}

/// What parsing `s` as a `usize` gives: an optional `+` then at least one
/// digit, all denoting a number that fits.
pub open spec fn parse_usize_spec(s: Seq<char>) -> Option<usize> {
    let d = unsigned_digits(s);
    if d.len() > 0 && all_digits(d) && digits_value(d) <= usize::MAX {
        Some(digits_value(d) as usize)
    } else {
        None
    }
}

proof fn lemma_digits_value_grows(s: Seq<char>, k: int)
    requires
        0 <= k <= s.len(),
        forall|i: int| 0 <= i < s.len() ==> is_digit(#[trigger] s[i]),
    ensures
        digits_value(s.take(k)) <= digits_value(s),
    decreases s.len() - k,
{
    if k < s.len() {
        lemma_digits_value_grows(s, k + 1);
        assert(s.take(k + 1).drop_last() =~= s.take(k));
    } else {
        assert(s.take(k) =~= s);
    }
}

/// Parses the characters of `s` as a `usize` (as `str::parse` does).
pub fn parse_usize(s: &Vec<char>) -> (res: Option<usize>)
    ensures
        res == parse_usize_spec(s@),
{
    let start: usize = if s.len() > 0 && s[0] == '+' { 1 } else { 0 };
    let ghost d = unsigned_digits(s@);
    assert(d =~= s@.skip(start as int));
    if start >= s.len() {
        return None;
    }
    let mut val: usize = 0;
    let mut i: usize = start;
    while i < s.len()
        invariant
            start <= i <= s.len(),
            d == unsigned_digits(s@),
            d =~= s@.skip(start as int),
            forall|k: int| 0 <= k < i - start ==> is_digit(#[trigger] d[k]),
            val as nat == digits_value(d.take(i - start)),
        decreases s.len() - i,
    {
        let c = s[i];
        assert(d[i - start] == c);
        if !('0' <= c && c <= '9') {
            assert(!is_digit(d[i - start]));
            assert(!all_digits(d));
            assert(parse_usize_spec(s@) is None);
            return None;
        }
        let digit = (c as u32 - '0' as u32) as usize;
        assert(digit == (c as int) - ('0' as int));
        assert(d.take(i - start + 1).drop_last() =~= d.take(i - start));
        assert(d.take(i - start + 1).last() == c);
        assert(digits_value(d.take(i - start + 1)) == val * 10 + digit);
        match val.checked_mul(10) {
            Some(m) => match m.checked_add(digit) {
                Some(v) => {
                    val = v;
                },
                None => {
                    proof {
                        assert(forall|k: int| 0 <= k < i - start + 1 ==> is_digit(#[trigger] d[k]));
                        assert(digits_value(d.take(i - start + 1)) > usize::MAX);
                        if all_digits(d) {
                            lemma_digits_value_grows(d, i - start + 1);
                        }
                    }
                    return None;
                },
            },
            None => {
                proof {
                    assert(digits_value(d.take(i - start + 1)) > usize::MAX);
                    if all_digits(d) {
                        lemma_digits_value_grows(d, i - start + 1);
                    }
                }
                return None;
            },
        }
        i = i + 1;
    }
    assert(d.take(i - start) =~= d);
    Some(val)
}

} // verus!
