//! The machine's own network address, read from the report of `ipconfig`.
use vstd::prelude::*;

verus! {

/// Whether `c` has Unicode's White_Space property: tab to carriage return,
/// space, next line, no-break space, ogham space mark, the spaces from en quad
/// to hair space, line and paragraph separators, narrow no-break space,
/// medium mathematical space and ideographic space.
pub open spec fn is_white_space(c: char) -> bool {
    let x = c as u32;
    ||| 0x9 <= x <= 0xd
    ||| x == 0x20
    ||| x == 0x85
    ||| x == 0xa0
    ||| x == 0x1680
    ||| 0x2000 <= x <= 0x200a
    ||| x == 0x2028
    ||| x == 0x2029
    ||| x == 0x202f
    ||| x == 0x205f
    ||| x == 0x3000
}

/// The upper-case mapping of `s`.
pub uninterp spec fn upper_of(s: Seq<char>) -> Seq<char>;

fn white_space(c: char) -> (r: bool)
    ensures
        r == is_white_space(c),
{
    let x = c as u32;
    (0x9 <= x && x <= 0xd) || x == 0x20 || x == 0x85 || x == 0xa0 || x == 0x1680 || (0x2000 <= x
        && x <= 0x200a) || x == 0x2028 || x == 0x2029 || x == 0x202f || x == 0x205f || x == 0x3000
}

/// Relies on `str::to_uppercase`: the result depends on the characters alone.
#[verifier::external_body]
fn uppercase(s: &[char]) -> (r: Vec<char>)
    ensures
        r@ == upper_of(s@),
{
    s.iter().collect::<String>().to_uppercase().chars().collect()
}

/// `t` cut at each line feed, the line feeds dropped.
pub open spec fn text_lines(t: Seq<char>) -> Seq<Seq<char>>
    decreases t.len(),
{
    if t.len() == 0 {
        seq![Seq::empty()]
    } else {
        let prev = text_lines(t.drop_last());
        if t.last() == '\n' {
            prev.push(Seq::empty())
        } else {
            prev.update(prev.len() - 1, prev.last().push(t.last()))
        }
    }
}

proof fn lemma_text_lines_len(t: Seq<char>)
    ensures
        text_lines(t).len() >= 1,
    decreases t.len(),
{
    if t.len() > 0 {
        lemma_text_lines_len(t.drop_last());
    }
}

/// Whether `pat` occurs in `line`.
pub open spec fn has_pattern(line: Seq<char>, pat: Seq<char>) -> bool {
    exists|i: int|
        0 <= i && i + pat.len() <= line.len() && #[trigger] line.subrange(i, i + pat.len()) == pat
}

/// The first index at or after `i` where `s` holds `c`, or -1.
pub open spec fn index_from(s: Seq<char>, c: char, i: int) -> int
    decreases s.len() - i,
{
    if i < 0 || i >= s.len() {
        -1
    } else if s[i] == c {
        i
    } else {
        index_from(s, c, i + 1)
    }
}

/// The text between the first colon of `line` and the next one (or the end).
pub open spec fn second_field(line: Seq<char>) -> Option<Seq<char>> {
    let a = index_from(line, ':', 0);
    if a < 0 {
        None
    } else {
        let rest = line.subrange(a + 1, line.len() as int);
        let b = index_from(rest, ':', 0);
        Some(
            if b < 0 {
                rest
            } else {
                rest.subrange(0, b)
            },
        )
    }
}

/// The first index at or after `i` that is not white space.
pub open spec fn start_of(s: Seq<char>, i: int) -> int
    decreases s.len() - i,
{
    if 0 <= i < s.len() && is_white_space(s[i]) {
        start_of(s, i + 1)
    } else {
        i
    }
}

/// The end of `s` before `j` once trailing white space is dropped, not below `lo`.
pub open spec fn end_of(s: Seq<char>, lo: int, j: int) -> int
    decreases j - lo,
{
    if lo < j <= s.len() && is_white_space(s[j - 1]) {
        end_of(s, lo, j - 1)
    } else {
        j
    }
}

/// `s` without leading and trailing white space.
pub open spec fn trimmed(s: Seq<char>) -> Seq<char> {
    let a = start_of(s, 0);
    s.subrange(a, end_of(s, a, s.len() as int))
}

/// "IPv4 Address"
pub open spec fn strict_marker() -> Seq<char> {
    seq!['I', 'P', 'v', '4', ' ', 'A', 'd', 'd', 'r', 'e', 's', 's']
}

/// "IPV4"
pub open spec fn lax_marker() -> Seq<char> {
    seq!['I', 'P', 'V', '4']
}

/// Whether `line` names an IPv4 address: with the exact label, or, where
/// `lax`, with "IPV4" anywhere in its upper-case form.
pub open spec fn names_ipv4(line: Seq<char>, lax: bool) -> bool {
    if lax {
        has_pattern(upper_of(line), lax_marker())
    } else {
        has_pattern(line, strict_marker())
    }
}

/// The trimmed second field of the last line of `lines` that names an IPv4
/// address and has such a field.
pub open spec fn last_address(lines: Seq<Seq<char>>, lax: bool) -> Option<Seq<char>>
    decreases lines.len(),
{
    if lines.len() == 0 {
        None
    } else if names_ipv4(lines.last(), lax) && second_field(lines.last()) is Some {
        Some(trimmed(second_field(lines.last())->0))
    } else {
        last_address(lines.drop_last(), lax)
    }
}

/// The address that an `ipconfig` report gives: from the lines labelled
/// "IPv4 Address", or failing those, from any line that mentions IPv4.
pub open spec fn reported_address(report: Seq<char>) -> Option<Seq<char>> {
    match last_address(text_lines(report), false) {
        Some(a) => Some(a),
        None => last_address(text_lines(report), true),
    }
}

fn split_lines(t: &Vec<char>) -> (r: Vec<Vec<char>>)
    ensures
        r@.map_values(|l: Vec<char>| l@) == text_lines(t@),
{
    let mut lines: Vec<Vec<char>> = Vec::new();
    let mut cur: Vec<char> = Vec::new();
    let mut i: usize = 0;
    while i < t.len()
        invariant
            i <= t@.len(),
            lines@.map_values(|l: Vec<char>| l@).push(cur@) == text_lines(t@.take(i as int)),
        decreases t@.len() - i,
    {
        let ghost before = lines@.map_values(|l: Vec<char>| l@).push(cur@);
        proof {
            assert(t@.take(i + 1).drop_last() =~= t@.take(i as int));
            lemma_text_lines_len(t@.take(i as int));
        }
        if t[i] == '\n' {
            let done = cur;
            lines.push(done);
            cur = Vec::new();
            assert(lines@.map_values(|l: Vec<char>| l@).push(cur@) =~= before.push(Seq::empty()));
        } else {
            cur.push(t[i]);
            assert(lines@.map_values(|l: Vec<char>| l@).push(cur@) =~= before.update(
                before.len() - 1,
                before.last().push(t@[i as int]),
            ));
        }
        i = i + 1;
    }
    lines.push(cur);
    proof {
        assert(t@.take(t@.len() as int) =~= t@);
        assert(lines@.map_values(|l: Vec<char>| l@) =~= text_lines(t@));
    }
    lines
}

fn contains(line: &[char], pat: &[char]) -> (r: bool)
    ensures
        r == has_pattern(line@, pat@),
{
    let n = line.len();
    let m = pat.len();
    if m > n {
        return false;
    }
    let mut i: usize = 0;
    while i <= n - m
        invariant
            n == line@.len(),
            m == pat@.len(),
            m <= n,
            i <= n - m + 1,
            forall|k: int| 0 <= k < i ==> #[trigger] line@.subrange(k, k + m) != pat@,
        decreases n - i,
    {
        let mut j: usize = 0;
        let mut same = true;
        while j < m
            invariant
                n == line@.len(),
                m == pat@.len(),
                i + m <= n,
                j <= m,
                same == (forall|q: int| 0 <= q < j ==> line@[i + q] == pat@[q]),
            decreases m - j,
        {
            if line[i + j] != pat[j] {
                same = false;
            }
            j = j + 1;
        }
        if same {
            assert(line@.subrange(i as int, i + m) =~= pat@);
            return true;
        }
        proof {
            let q = choose|q: int| 0 <= q < m && line@[i + q] != pat@[q];
            assert(line@.subrange(i as int, i + m)[q] != pat@[q]);
        }
        i = i + 1;
    }
    false
}

fn find_from(s: &[char], c: char, start: usize) -> (r: Option<usize>)
    requires
        start <= s@.len(),
    ensures
        r matches Some(k) ==> index_from(s@, c, start as int) == k && start <= k < s@.len(),
        r is None ==> index_from(s@, c, start as int) == -1,
{
    let mut i: usize = start;
    while i < s.len()
        invariant
            start <= i <= s@.len(),
            index_from(s@, c, start as int) == index_from(s@, c, i as int),
        decreases s@.len() - i,
    {
        if s[i] == c {
            return Some(i);
        }
        i = i + 1;
    }
    None
}

fn field_of(line: &[char]) -> (r: Option<Vec<char>>)
    ensures
        match second_field(line@) {
            None => r is None,
            Some(f) => r matches Some(v) && v@ == f,
        },
{
    let n = line.len();
    let a = match find_from(line, ':', 0) {
        None => return None,
        Some(a) => a,
    };
    let rest = &line[a + 1..n];
    let end = match find_from(rest, ':', 0) {
        None => rest.len(),
        Some(b) => b,
    };
    let mut v: Vec<char> = Vec::new();
    let mut i: usize = 0;
    while i < end
        invariant
            end <= rest@.len(),
            i <= end,
            v@ == rest@.take(i as int),
        decreases end - i,
    {
        v.push(rest[i]);
        proof {
            assert(rest@.take(i + 1) =~= rest@.take(i as int).push(rest@[i as int]));
        }
        i = i + 1;
    }
    proof {
        assert(rest@.take(end as int) =~= (if end == rest@.len() {
            rest@
        } else {
            rest@.subrange(0, end as int)
        }));
    }
    Some(v)
}

fn trim(s: &[char]) -> (r: Vec<char>)
    ensures
        r@ == trimmed(s@),
{
    let mut a: usize = 0;
    while a < s.len() && white_space(s[a])
        invariant
            a <= s@.len(),
            start_of(s@, 0) == start_of(s@, a as int),
        decreases s@.len() - a,
    {
        a = a + 1;
    }
    let mut e: usize = s.len();
    while e > a && white_space(s[e - 1])
        invariant
            a <= e <= s@.len(),
            start_of(s@, 0) == a,
            end_of(s@, a as int, s@.len() as int) == end_of(s@, a as int, e as int),
        decreases e - a,
    {
        e = e - 1;
    }
    let mut v: Vec<char> = Vec::new();
    let mut i: usize = a;
    while i < e
        invariant
            a <= i <= e,
            e <= s@.len(),
            v@ == s@.subrange(a as int, i as int),
        decreases e - i,
    {
        v.push(s[i]);
        proof {
            assert(s@.subrange(a as int, i + 1) =~= s@.subrange(a as int, i as int).push(
                s@[i as int],
            ));
        }
        i = i + 1;
    }
    v
}

fn pick_last(lines: &Vec<Vec<char>>, lax: bool) -> (r: Option<Vec<char>>)
    ensures
        match last_address(lines@.map_values(|l: Vec<char>| l@), lax) {
            None => r is None,
            Some(a) => r matches Some(v) && v@ == a,
        },
{
    let ghost all = lines@.map_values(|l: Vec<char>| l@);
    let strict = ['I', 'P', 'v', '4', ' ', 'A', 'd', 'd', 'r', 'e', 's', 's'];
    let loose = ['I', 'P', 'V', '4'];
    assert(strict@ =~= strict_marker());
    assert(loose@ =~= lax_marker());
    let mut j: usize = lines.len();
    assert(all.take(j as int) =~= all);
    while j > 0
        invariant
            j <= lines@.len(),
            all == lines@.map_values(|l: Vec<char>| l@),
            strict@ == strict_marker(),
            loose@ == lax_marker(),
            last_address(all, lax) == last_address(all.take(j as int), lax),
        decreases j,
    {
        let line = &lines[j - 1];
        proof {
            assert(all.take(j as int).last() == line@);
            assert(all.take(j as int).drop_last() =~= all.take(j - 1));
        }
        let named = if lax {
            let upper = uppercase(line.as_slice());
            contains(upper.as_slice(), &loose)
        } else {
            contains(line.as_slice(), &strict)
        };
        if named {
            if let Some(f) = field_of(line.as_slice()) {
                return Some(trim(f.as_slice()));
            }
        }
        j = j - 1;
    }
    proof {
        assert(all.take(0) =~= Seq::<Seq<char>>::empty());
    }
    None
}

/// The machine's IPv4 address as an `ipconfig` report gives it.
pub fn address_from_report(report: &Vec<char>) -> (r: Option<Vec<char>>)
    ensures
        match reported_address(report@) {
            None => r is None,
            Some(a) => r matches Some(v) && v@ == a,
        },
{
    let lines = split_lines(report);
    match pick_last(&lines, false) {
        Some(a) => Some(a),
        None => pick_last(&lines, true),
    }
}

} // verus!
