use core::cmp::Ordering;
use vstd::prelude::*;
use vstd::multiset::Multiset;
use vstd::utf8::encode_utf8;

verus! {

/// Whether the byte is an ASCII decimal digit.
pub open spec fn is_digit(c: u8) -> bool {
    48 <= c <= 57
}

/// Byte-wise lexicographic comparison: -1, 0 or 1.
pub open spec fn lex_cmp(x: Seq<u8>, y: Seq<u8>) -> int
    decreases x.len(),
{
    if x.len() == 0 && y.len() == 0 {
        0
    } else if x.len() == 0 {
        -1
    } else if y.len() == 0 {
        1
    } else if x[0] < y[0] {
        -1
    } else if x[0] > y[0] {
        1
    } else {
        lex_cmp(x.drop_first(), y.drop_first())
    }
}

/// A digit run without its leading zeros.
pub open spec fn strip_zeros(x: Seq<u8>) -> Seq<u8>
    decreases x.len(),
{
    if x.len() > 0 && x[0] == 48 {
        strip_zeros(x.drop_first())
    } else {
        x
    }
}

/// Compares two digit runs by the numbers they write: with the leading
/// zeros gone, a shorter run is a smaller number, and runs of one length
/// compare digit by digit.
pub open spec fn digits_cmp(x: Seq<u8>, y: Seq<u8>) -> int {
    let sx = strip_zeros(x);
    let sy = strip_zeros(y);
    if sx.len() < sy.len() {
        -1
    } else if sx.len() > sy.len() {
        1
    } else {
        lex_cmp(sx, sy)
    }
}

/// Compares two runs: numbers by value, text by bytes, and a number before text.
pub open spec fn run_cmp(x: Seq<u8>, y: Seq<u8>) -> int {
    let dx = x.len() > 0 && is_digit(x[0]);
    let dy = y.len() > 0 && is_digit(y[0]);
    if dx && dy {
        digits_cmp(x, y)
    } else if !dx && !dy {
        lex_cmp(x, y)
    } else if dx {
        -1
    } else {
        1
    }
}

/// End of the maximal run of digits, or of non-digits, that starts at `i`.
pub open spec fn run_end(s: Seq<u8>, i: int) -> int
    decreases s.len() - i,
{
    if i < 0 || i + 1 >= s.len() {
        s.len() as int
    } else if is_digit(s[i]) == is_digit(s[i + 1]) {
        run_end(s, i + 1)
    } else {
        i + 1
    }
}

pub proof fn lemma_run_end_bound(s: Seq<u8>, i: int)
    requires
        0 <= i < s.len(),
    ensures
        i < run_end(s, i) <= s.len(),
    decreases s.len() - i,
{
    if i + 1 < s.len() && is_digit(s[i]) == is_digit(s[i + 1]) {
        lemma_run_end_bound(s, i + 1);
    }
}

/// Natural comparison of `a[i..]` and `b[j..]`, run by run; where all runs
/// tie, the one with fewer runs comes first.
pub open spec fn nat_cmp_from(a: Seq<u8>, i: int, b: Seq<u8>, j: int) -> int
    decreases a.len() - i + b.len() - j,
    when 0 <= i && 0 <= j
    via nat_cmp_from_decreases
{
    if i >= a.len() && j >= b.len() {
        0
    } else if i >= a.len() {
        -1
    } else if j >= b.len() {
        1
    } else {
        let ea = run_end(a, i);
        let eb = run_end(b, j);
        let c = run_cmp(a.subrange(i, ea), b.subrange(j, eb));
        if c != 0 {
            c
        } else {
            nat_cmp_from(a, ea, b, eb)
        }
    }
}

#[via_fn]
proof fn nat_cmp_from_decreases(a: Seq<u8>, i: int, b: Seq<u8>, j: int) {
    if i < a.len() && j < b.len() {
        lemma_run_end_bound(a, i);
        lemma_run_end_bound(b, j);
    }
}

/// Natural order of two names: -1, 0 or 1.
pub open spec fn natural_order(a: Seq<u8>, b: Seq<u8>) -> int {
    nat_cmp_from(a, 0, b, 0)
}

/// `p` and `q` chain into `r` as a total preorder requires.
pub open spec fn chains(p: int, q: int, r: int) -> bool {
    (p <= 0 && q <= 0 ==> r <= 0) && (p <= 0 && q <= 0 && (p < 0 || q < 0) ==> r < 0)
}

proof fn lemma_lex(x: Seq<u8>, y: Seq<u8>, z: Seq<u8>)
    ensures
        lex_cmp(x, x) == 0,
        lex_cmp(x, y) == -lex_cmp(y, x),
        -1 <= lex_cmp(x, y) <= 1,
        chains(lex_cmp(x, y), lex_cmp(y, z), lex_cmp(x, z)),
    decreases x.len(),
{
    if x.len() > 0 && y.len() > 0 && z.len() > 0 {
        lemma_lex(x.drop_first(), y.drop_first(), z.drop_first());
    } else if x.len() > 0 && y.len() > 0 {
        lemma_lex(x.drop_first(), y.drop_first(), y.drop_first());
    } else if x.len() > 0 {
        lemma_lex(x.drop_first(), x.drop_first(), x.drop_first());
    }
}

proof fn lemma_run(x: Seq<u8>, y: Seq<u8>, z: Seq<u8>)
    ensures
        run_cmp(x, x) == 0,
        run_cmp(x, y) == -run_cmp(y, x),
        -1 <= run_cmp(x, y) <= 1,
        chains(run_cmp(x, y), run_cmp(y, z), run_cmp(x, z)),
{
    lemma_lex(x, y, z);
    lemma_lex(y, x, z);
    lemma_lex(strip_zeros(x), strip_zeros(y), strip_zeros(z));
    lemma_lex(strip_zeros(y), strip_zeros(x), strip_zeros(z));
}

proof fn lemma_nat_cmp(a: Seq<u8>, i: int, b: Seq<u8>, j: int, c: Seq<u8>, k: int)
    requires
        0 <= i,
        0 <= j,
        0 <= k,
    ensures
        nat_cmp_from(a, i, a, i) == 0,
        nat_cmp_from(a, i, b, j) == -nat_cmp_from(b, j, a, i),
        -1 <= nat_cmp_from(a, i, b, j) <= 1,
        chains(nat_cmp_from(a, i, b, j), nat_cmp_from(b, j, c, k), nat_cmp_from(a, i, c, k)),
    decreases a.len() - i,
{
    if i < a.len() {
        lemma_run_end_bound(a, i);
        let ea = run_end(a, i);
        let xa = a.subrange(i, ea);
        lemma_run(xa, xa, xa);
        lemma_nat_cmp(a, ea, a, ea, a, ea);
        if j < b.len() {
            lemma_run_end_bound(b, j);
            let eb = run_end(b, j);
            let xb = b.subrange(j, eb);
            if k < c.len() {
                lemma_run_end_bound(c, k);
                let ec = run_end(c, k);
                let xc = c.subrange(k, ec);
                lemma_run(xa, xb, xc);
                lemma_run(xb, xa, xc);
                lemma_run(xc, xb, xa);
                lemma_run(xb, xc, xa);
                lemma_nat_cmp(a, ea, b, eb, c, ec);
            } else {
                lemma_run(xa, xb, xb);
                lemma_nat_cmp(a, ea, b, eb, b, eb);
            }
        }
    }
}

/// The natural order is a total preorder: every name ties with itself,
/// swapping the names flips the result, and it is transitive (also strictly).
pub proof fn lemma_natural_order_total(a: Seq<u8>, b: Seq<u8>, c: Seq<u8>)
    ensures
        natural_order(a, a) == 0,
        natural_order(a, b) == -natural_order(b, a),
        -1 <= natural_order(a, b) <= 1,
        chains(natural_order(a, b), natural_order(b, c), natural_order(a, c)),
{
    lemma_nat_cmp(a, 0, b, 0, c, 0);
}

/// `10` to the power `n`.
pub open spec fn pow10(n: nat) -> nat
    decreases n,
{
    if n == 0 {
        1
    } else {
        10 * pow10((n - 1) as nat)
    }
}

/// Every byte is a decimal digit.
pub open spec fn all_digits(s: Seq<u8>) -> bool {
    forall|k: int| 0 <= k < s.len() ==> is_digit(#[trigger] s[k])
}

/// The number a run of decimal digits writes.
pub open spec fn digits_value(s: Seq<u8>) -> nat
    decreases s.len(),
{
    if s.len() == 0 {
        0
    } else {
        ((s[0] - 48) as nat) * pow10((s.len() - 1) as nat) + digits_value(s.drop_first())
    }
}

/// Sign of `x`: -1, 0 or 1.
pub open spec fn sign(x: int) -> int {
    if x < 0 {
        -1
    } else if x == 0 {
        0
    } else {
        1
    }
}

proof fn lemma_pow10_mono(m: nat, n: nat)
    requires
        m <= n,
    ensures
        1 <= pow10(m) <= pow10(n),
    decreases n,
{
    if n > 0 && m < n {
        lemma_pow10_mono(m, (n - 1) as nat);
    } else if n > 0 {
        lemma_pow10_mono((n - 1) as nat, (n - 1) as nat);
    }
}

proof fn lemma_value_bounds(s: Seq<u8>)
    requires
        all_digits(s),
    ensures
        digits_value(s) < pow10(s.len()),
        s.len() > 0 && s[0] != 48 ==> pow10((s.len() - 1) as nat) <= digits_value(s),
    decreases s.len(),
{
    if s.len() > 0 {
        let rest = s.drop_first();
        assert(all_digits(rest)) by {
            assert forall|k: int| 0 <= k < rest.len() implies is_digit(#[trigger] rest[k]) by {
                assert(rest[k] == s[k + 1]);
            }
        }
        lemma_value_bounds(rest);
        let d = (s[0] - 48) as nat;
        let p = pow10((s.len() - 1) as nat);
        assert(is_digit(s[0]));
        assert(d <= 9);
        assert(d * p <= 9 * p) by (nonlinear_arith)
            requires
                d <= 9,
        ;
        assert(s[0] != 48 ==> d * p >= p) by (nonlinear_arith)
            requires
                s[0] != 48 ==> d >= 1,
        ;
    }
}

proof fn lemma_strip_zeros(s: Seq<u8>)
    requires
        all_digits(s),
    ensures
        all_digits(strip_zeros(s)),
        digits_value(strip_zeros(s)) == digits_value(s),
        strip_zeros(s).len() > 0 ==> strip_zeros(s)[0] != 48,
    decreases s.len(),
{
    if s.len() > 0 && s[0] == 48 {
        let rest = s.drop_first();
        assert(all_digits(rest)) by {
            assert forall|k: int| 0 <= k < rest.len() implies is_digit(#[trigger] rest[k]) by {
                assert(rest[k] == s[k + 1]);
            }
        }
        lemma_strip_zeros(rest);
        assert(((s[0] - 48) as nat) == 0);
        assert(digits_value(s) == 0 * pow10((s.len() - 1) as nat) + digits_value(rest));
    }
}

proof fn lemma_lex_value(s: Seq<u8>, t: Seq<u8>)
    requires
        all_digits(s),
        all_digits(t),
        s.len() == t.len(),
    ensures
        lex_cmp(s, t) == sign(digits_value(s) - digits_value(t)),
    decreases s.len(),
{
    if s.len() > 0 {
        let rs = s.drop_first();
        let rt = t.drop_first();
        assert(all_digits(rs)) by {
            assert forall|k: int| 0 <= k < rs.len() implies is_digit(#[trigger] rs[k]) by {
                assert(rs[k] == s[k + 1]);
            }
        }
        assert(all_digits(rt)) by {
            assert forall|k: int| 0 <= k < rt.len() implies is_digit(#[trigger] rt[k]) by {
                assert(rt[k] == t[k + 1]);
            }
        }
        lemma_value_bounds(rs);
        lemma_value_bounds(rt);
        lemma_lex_value(rs, rt);
        assert(is_digit(s[0]) && is_digit(t[0]));
        let ds = (s[0] - 48) as nat;
        let dt = (t[0] - 48) as nat;
        let p = pow10((s.len() - 1) as nat);
        let vs = digits_value(rs);
        let vt = digits_value(rt);
        assert(digits_value(s) == ds * p + vs);
        assert(digits_value(t) == dt * p + vt);
        if ds < dt {
            assert(ds * p + vs < dt * p + vt) by (nonlinear_arith)
                requires
                    ds < dt,
                    vs < p,
            ;
        } else if ds > dt {
            assert(ds * p + vs > dt * p + vt) by (nonlinear_arith)
                requires
                    ds > dt,
                    vt < p,
            ;
        }
    }
}

proof fn lemma_digits_cmp_value(x: Seq<u8>, y: Seq<u8>)
    requires
        all_digits(x),
        all_digits(y),
    ensures
        digits_cmp(x, y) == sign(digits_value(x) - digits_value(y)),
{
    let sx = strip_zeros(x);
    let sy = strip_zeros(y);
    lemma_strip_zeros(x);
    lemma_strip_zeros(y);
    lemma_value_bounds(sx);
    lemma_value_bounds(sy);
    if sx.len() < sy.len() {
        lemma_pow10_mono(sx.len(), (sy.len() - 1) as nat);
    } else if sx.len() > sy.len() {
        lemma_pow10_mono(sy.len(), (sx.len() - 1) as nat);
    } else {
        lemma_lex_value(sx, sy);
    }
}

proof fn lemma_digit_run(s: Seq<u8>, i: int)
    requires
        all_digits(s),
        0 <= i < s.len(),
    ensures
        run_end(s, i) == s.len(),
    decreases s.len() - i,
{
    if i + 1 < s.len() {
        assert(is_digit(s[i]) && is_digit(s[i + 1]));
        lemma_digit_run(s, i + 1);
    }
}

/// Names made of decimal digits alone compare by the numbers they write,
/// whatever their leading zeros (`007` ties with `7`).
pub proof fn lemma_digit_names_by_value(a: Seq<u8>, b: Seq<u8>)
    requires
        a.len() > 0,
        b.len() > 0,
        all_digits(a),
        all_digits(b),
    ensures
        natural_order(a, b) == sign(digits_value(a) - digits_value(b)),
{
    lemma_digit_run(a, 0);
    lemma_digit_run(b, 0);
    assert(a.subrange(0, a.len() as int) =~= a);
    assert(b.subrange(0, b.len() as int) =~= b);
    assert(is_digit(a[0]) && is_digit(b[0]));
    lemma_digits_cmp_value(a, b);
    assert(nat_cmp_from(a, a.len() as int, b, b.len() as int) == 0);
}

fn run_end_at(s: &[u8], i: usize) -> (e: usize)
    requires
        i < s@.len(),
    ensures
        e as int == run_end(s@, i as int),
        i < e <= s@.len(),
{
    let d = is_digit_byte(s[i]);
    let mut j: usize = i + 1;
    while j < s.len() && is_digit_byte(s[j]) == d
        invariant
            i < j <= s@.len(),
            d == is_digit(s@[i as int]),
            is_digit(s@[j - 1]) == d,
            run_end(s@, i as int) == run_end(s@, j - 1),
        decreases s@.len() - j,
    {
        j = j + 1;
    }
    j
}

fn is_digit_byte(c: u8) -> (r: bool)
    ensures
        r == is_digit(c),
{
    48 <= c && c <= 57
}

fn lex_range(a: &[u8], i0: usize, i1: usize, b: &[u8], j0: usize, j1: usize) -> (r: i8)
    requires
        i0 <= i1 <= a@.len(),
        j0 <= j1 <= b@.len(),
    ensures
        r as int == lex_cmp(a@.subrange(i0 as int, i1 as int), b@.subrange(j0 as int, j1 as int)),
{
    let mut i = i0;
    let mut j = j0;
    while i < i1 && j < j1 && a[i] == b[j]
        invariant
            i0 <= i <= i1 <= a@.len(),
            j0 <= j <= j1 <= b@.len(),
            lex_cmp(a@.subrange(i0 as int, i1 as int), b@.subrange(j0 as int, j1 as int))
                == lex_cmp(a@.subrange(i as int, i1 as int), b@.subrange(j as int, j1 as int)),
        decreases i1 - i,
    {
        assert(a@.subrange(i as int, i1 as int).drop_first() =~= a@.subrange(i + 1, i1 as int));
        assert(b@.subrange(j as int, j1 as int).drop_first() =~= b@.subrange(j + 1, j1 as int));
        i = i + 1;
        j = j + 1;
    }
    if i == i1 && j == j1 {
        0
    } else if i == i1 {
        -1
    } else if j == j1 {
        1
    } else if a[i] < b[j] {
        -1
    } else {
        1
    }
}

fn skip_zeros(a: &[u8], i0: usize, i1: usize) -> (r: usize)
    requires
        i0 <= i1 <= a@.len(),
    ensures
        i0 <= r <= i1,
        a@.subrange(r as int, i1 as int) == strip_zeros(a@.subrange(i0 as int, i1 as int)),
{
    let mut i = i0;
    while i < i1 && a[i] == 48
        invariant
            i0 <= i <= i1 <= a@.len(),
            strip_zeros(a@.subrange(i0 as int, i1 as int)) == strip_zeros(
                a@.subrange(i as int, i1 as int),
            ),
        decreases i1 - i,
    {
        assert(a@.subrange(i as int, i1 as int).drop_first() =~= a@.subrange(i + 1, i1 as int));
        i = i + 1;
    }
    i
}

fn run_compare(a: &[u8], i0: usize, i1: usize, b: &[u8], j0: usize, j1: usize) -> (r: i8)
    requires
        i0 < i1 <= a@.len(),
        j0 < j1 <= b@.len(),
    ensures
        r as int == run_cmp(a@.subrange(i0 as int, i1 as int), b@.subrange(j0 as int, j1 as int)),
{
    let dx = is_digit_byte(a[i0]);
    let dy = is_digit_byte(b[j0]);
    if dx && dy {
        let si = skip_zeros(a, i0, i1);
        let sj = skip_zeros(b, j0, j1);
        if i1 - si < j1 - sj {
            -1
        } else if i1 - si > j1 - sj {
            1
        } else {
            lex_range(a, si, i1, b, sj, j1)
        }
    } else if !dx && !dy {
        lex_range(a, i0, i1, b, j0, j1)
    } else if dx {
        -1
    } else {
        1
    }
}

/// Natural order of two names: `-1`, `0` or `1` as `natural_order` gives.
pub fn natural_cmp_int(a: &[u8], b: &[u8]) -> (r: i8)
    ensures
        r as int == natural_order(a@, b@),
{
    let mut i: usize = 0;
    let mut j: usize = 0;
    while i < a.len() && j < b.len()
        invariant
            i <= a@.len(),
            j <= b@.len(),
            natural_order(a@, b@) == nat_cmp_from(a@, i as int, b@, j as int),
        decreases a@.len() - i,
    {
        let ea = run_end_at(a, i);
        let eb = run_end_at(b, j);
        let c = run_compare(a, i, ea, b, j, eb);
        if c != 0 {
            return c;
        }
        i = ea;
        j = eb;
    }
    if i == a.len() && j == b.len() {
        0
    } else if i == a.len() {
        -1
    } else {
        1
    }
}

/// The ordering that an integer comparison result stands for.
pub open spec fn ordering_of(c: int) -> Ordering {
    if c < 0 {
        Ordering::Less
    } else if c == 0 {
        Ordering::Equal
    } else {
        Ordering::Greater
    }
}

/// Compares two names in natural order: digit runs by numeric value, other
/// runs byte by byte (`page2` before `page10`).
pub fn natural_cmp(a: &[u8], b: &[u8]) -> (r: Ordering)
    ensures
        r == ordering_of(natural_order(a@, b@)),
{
    let c = natural_cmp_int(a, b);
    if c < 0 {
        Ordering::Less
    } else if c == 0 {
        Ordering::Equal
    } else {
        Ordering::Greater
    }
}

/// Plain byte-wise order of two names.
pub fn simple_cmp(a: &[u8], b: &[u8]) -> (r: Ordering)
    ensures
        r == ordering_of(lex_cmp(a@, b@)),
{
    let c = lex_range(a, 0, a.len(), b, 0, b.len());
    proof {
        assert(a@.subrange(0, a@.len() as int) =~= a@);
        assert(b@.subrange(0, b@.len() as int) =~= b@);
    }
    if c < 0 {
        Ordering::Less
    } else if c == 0 {
        Ordering::Equal
    } else {
        Ordering::Greater
    }
}

/// Order of page names: plain byte order when `simple`, else natural order.
pub open spec fn page_order(simple: bool, a: Seq<u8>, b: Seq<u8>) -> int {
    if simple {
        lex_cmp(a, b)
    } else {
        natural_order(a, b)
    }
}

/// The bytes of a page name.
pub open spec fn name_bytes(s: String) -> Seq<u8> {
    encode_utf8(s@)
}

/// The names are in non-decreasing page order.
pub open spec fn sorted_pages(simple: bool, v: Seq<String>) -> bool {
    forall|i: int, j: int|
        0 <= i < j < v.len() ==> page_order(simple, name_bytes(#[trigger] v[i]), name_bytes(#[trigger] v[j])) <= 0
}

proof fn lemma_page_order(simple: bool, a: Seq<u8>, b: Seq<u8>, c: Seq<u8>)
    ensures
        page_order(simple, a, b) == -page_order(simple, b, a),
        chains(page_order(simple, a, b), page_order(simple, b, c), page_order(simple, a, c)),
{
    lemma_lex(a, b, c);
    lemma_natural_order_total(a, b, c);
}

fn page_cmp(simple: bool, a: &String, b: &String) -> (r: i8)
    ensures
        r as int == page_order(simple, name_bytes(*a), name_bytes(*b)),
{
    let x = a.as_str().as_bytes();
    let y = b.as_str().as_bytes();
    if simple {
        let r = lex_range(x, 0, x.len(), y, 0, y.len());
        proof {
            assert(x@.subrange(0, x@.len() as int) =~= x@);
            assert(y@.subrange(0, y@.len() as int) =~= y@);
        }
        r
    } else {
        natural_cmp_int(x, y)
    }
}

/// Sorts page names in place, by plain byte order when `simple` is set and
/// by natural order otherwise; equal names keep no particular order.
pub fn sort_pages(v: &mut Vec<String>, simple: bool)
    ensures
        final(v)@.to_multiset() == old(v)@.to_multiset(),
        sorted_pages(simple, final(v)@),
{
    broadcast use vstd::multiset::group_multiset_axioms;

    let mut out: Vec<String> = Vec::new();
    proof {
        vstd::seq_lib::to_multiset_len(out@);
        vstd::multiset::lemma_multiset_empty_len(out@.to_multiset());
    }
    assert(out@.to_multiset() =~= Multiset::<String>::empty());
    assert(v@.to_multiset().add(out@.to_multiset()) =~= v@.to_multiset());
    while v.len() > 0
        invariant
            old(v)@.to_multiset() == v@.to_multiset().add(out@.to_multiset()),
            sorted_pages(simple, out@),
        decreases v@.len(),
    {
        let ghost before = v@;
        let x = v.pop().unwrap();
        assert(before == v@.push(x));
        let mut pos: usize = 0;
        while pos < out.len() && page_cmp(simple, &x, &out[pos]) >= 0
            invariant
                pos <= out@.len(),
                forall|k: int| 0 <= k < pos ==> page_order(simple, name_bytes(x), name_bytes(#[trigger] out@[k])) >= 0,
            decreases out@.len() - pos,
        {
            pos = pos + 1;
        }
        let ghost prev = out@;
        out.insert(pos, x);
        proof {
            assert(out@ == prev.insert(pos as int, x));
            vstd::seq_lib::to_multiset_insert(prev, pos as int, x);
            vstd::seq_lib::to_multiset_build(v@, x);
            assert(out@.to_multiset() == prev.to_multiset().insert(x));
            assert(before.to_multiset() == v@.to_multiset().insert(x));
            assert(v@.to_multiset().insert(x).add(prev.to_multiset()) =~= v@.to_multiset().add(
                prev.to_multiset().insert(x),
            ));
            assert forall|i: int, j: int| 0 <= i < j < out@.len() implies page_order(
                simple,
                name_bytes(#[trigger] out@[i]),
                name_bytes(#[trigger] out@[j]),
            ) <= 0 by {
                let xb = name_bytes(x);
                if i < pos && j < pos {
                    assert(out@[i] == prev[i] && out@[j] == prev[j]);
                } else if i < pos && j == pos {
                    lemma_page_order(simple, name_bytes(prev[i]), xb, xb);
                } else if i < pos {
                    assert(out@[i] == prev[i] && out@[j] == prev[j - 1]);
                } else if i == pos {
                    let p0 = name_bytes(prev[pos as int]);
                    let pj = name_bytes(prev[j - 1]);
                    lemma_page_order(simple, xb, p0, pj);
                    lemma_page_order(simple, p0, xb, pj);
                    if j - 1 > pos {
                        assert(page_order(simple, p0, pj) <= 0);
                    }
                } else {
                    assert(out@[i] == prev[i - 1] && out@[j] == prev[j - 1]);
                }
            }
        }
    }
    proof {
        vstd::seq_lib::to_multiset_len(v@);
        vstd::multiset::lemma_multiset_empty_len(v@.to_multiset());
    }
    assert(v@.to_multiset() =~= Multiset::<String>::empty());
    assert(out@.to_multiset().add(Multiset::empty()) =~= out@.to_multiset());
    *v = out;
}

} // verus!
