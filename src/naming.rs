use vstd::prelude::*;
use vstd::string::*;

verus! {

/// The decimal digit `d` (0 to 9) as a character.
pub open spec fn digit_char(d: int) -> char {
    if d == 0 {
        '0'
    } else if d == 1 {
        '1'
    } else if d == 2 {
        '2'
    } else if d == 3 {
        '3'
    } else if d == 4 {
        '4'
    } else if d == 5 {
        '5'
    } else if d == 6 {
        '6'
    } else if d == 7 {
        '7'
    } else if d == 8 {
        '8'
    } else {
        '9'
    }
}

/// The decimal representation of `n`, without leading zeros.
pub open spec fn dec(n: nat) -> Seq<char>
    decreases n,
{
    if n < 10 {
        seq![digit_char(n as int)]
    } else {
        dec(n / 10).push(digit_char((n % 10) as int))
    }
}

/// The value of a decimal digit character (0 for any other character).
pub open spec fn digit_value(c: char) -> nat {
    if c == '1' {
        1
    } else if c == '2' {
        2
    } else if c == '3' {
        3
    } else if c == '4' {
        4
    } else if c == '5' {
        5
    } else if c == '6' {
        6
    } else if c == '7' {
        7
    } else if c == '8' {
        8
    } else if c == '9' {
        9
    } else {
        0
    }
}

/// The number that a string of decimal digit characters writes.
pub open spec fn dec_value(s: Seq<char>) -> nat
    decreases s.len(),
{
    if s.len() == 0 {
        0
    } else {
        dec_value(s.drop_last()) * 10 + digit_value(s.last())
    }
}

proof fn lemma_dec_value(n: nat)
    ensures
        dec_value(dec(n)) == n,
    decreases n,
{
    let d = n % 10;
    assert(digit_value(digit_char(d as int)) == d);
    if n >= 10 {
        lemma_dec_value(n / 10);
        assert(dec(n).drop_last() =~= dec(n / 10));
        assert(dec(n).last() == digit_char(d as int));
        assert((n / 10) * 10 + d == n);
        assert(dec_value(dec(n)) == dec_value(dec(n).drop_last()) * 10 + digit_value(dec(n).last()));
    } else {
        assert(dec(n).drop_last() =~= Seq::<char>::empty());
        assert(dec(n).len() == 1);
        assert(dec(n).last() == digit_char(n as int));
        assert(d == n);
        assert(dec_value(Seq::<char>::empty()) == 0);
        assert(dec_value(dec(n)) == dec_value(dec(n).drop_last()) * 10 + digit_value(dec(n).last()));
    }
}

proof fn lemma_zeros_value(k: nat, s: Seq<char>)
    ensures
        dec_value(zeros(k) + s) == dec_value(s),
    decreases s.len() + k,
{
    if s.len() > 0 {
        assert((zeros(k) + s).drop_last() =~= zeros(k) + s.drop_last());
        lemma_zeros_value(k, s.drop_last());
    } else if k > 0 {
        assert((zeros(k) + s).drop_last() =~= zeros((k - 1) as nat) + s);
        lemma_zeros_value((k - 1) as nat, s);
        assert(zeros(k) + s =~= zeros(k));
    } else {
        assert(zeros(k) + s =~= s);
    }
}

/// A padded number reads back as the number.
pub proof fn lemma_padded_value(n: nat, width: nat)
    ensures
        dec_value(padded(n, width)) == n,
{
    lemma_dec_value(n);
    if dec(n).len() < width {
        lemma_zeros_value((width - dec(n).len()) as nat, dec(n));
    }
}

/// `k` zero characters.
pub open spec fn zeros(k: nat) -> Seq<char> {
    Seq::new(k, |i: int| '0')
}

/// `n` in decimal, left-padded with zeros to at least `width` characters.
pub open spec fn padded(n: nat, width: nat) -> Seq<char> {
    if dec(n).len() >= width {
        dec(n)
    } else {
        zeros((width - dec(n).len()) as nat) + dec(n)
    }
}

/// Index of the dot that starts the extension of the last path component,
/// searching `s[0..i]` backwards; -1 where there is none. A dot that is the
/// first character of its component does not start an extension.
pub open spec fn ext_dot(s: Seq<char>, i: int) -> int
    decreases i,
{
    if i <= 0 {
        -1
    } else if s[i - 1] == '/' {
        -1
    } else if s[i - 1] == '.' && i - 1 > 0 && s[i - 2] != '/' {
        i - 1
    } else {
        ext_dot(s, i - 1)
    }
}

proof fn lemma_ext_dot_bound(s: Seq<char>, i: int)
    ensures
        -1 <= ext_dot(s, i) < i || (i <= 0 && ext_dot(s, i) == -1),
    decreases i,
{
    if i > 0 {
        lemma_ext_dot_bound(s, i - 1);
    }
}

/// The path `s` without the extension of its last component.
pub open spec fn strip_ext(s: Seq<char>) -> Seq<char> {
    let k = ext_dot(s, s.len() as int);
    if k < 0 {
        s
    } else {
        s.subrange(0, k)
    }
}

/// The extension of the last component of `s` (empty where there is none).
pub open spec fn ext_of(s: Seq<char>) -> Seq<char> {
    let k = ext_dot(s, s.len() as int);
    if k < 0 {
        Seq::empty()
    } else {
        s.subrange(k + 1, s.len() as int)
    }
}

/// The path `name` inside directory `dir`.
pub open spec fn join_path(dir: Seq<char>, name: Seq<char>) -> Seq<char> {
    if dir.len() == 0 {
        name
    } else if dir.last() == '/' {
        dir + name
    } else {
        dir + seq!['/'] + name
    }
}

/// The longest label shown to the user before it is cut.
pub const DISPLAY_MAX: usize = 50;

/// A label cut to `DISPLAY_MAX` characters, with `...` marking the cut.
pub open spec fn truncated(s: Seq<char>) -> Seq<char> {
    if s.len() <= DISPLAY_MAX {
        s
    } else {
        s.subrange(0, DISPLAY_MAX as int) + seq!['.', '.', '.']
    }
}

fn digit_str(d: usize) -> (r: &'static str)
    requires
        d < 10,
    ensures
        r@ == seq![digit_char(d as int)],
{
    proof {
        reveal_strlit("0");
        reveal_strlit("1");
        reveal_strlit("2");
        reveal_strlit("3");
        reveal_strlit("4");
        reveal_strlit("5");
        reveal_strlit("6");
        reveal_strlit("7");
        reveal_strlit("8");
        reveal_strlit("9");
    }
    if d == 0 {
        "0"
    } else if d == 1 {
        "1"
    } else if d == 2 {
        "2"
    } else if d == 3 {
        "3"
    } else if d == 4 {
        "4"
    } else if d == 5 {
        "5"
    } else if d == 6 {
        "6"
    } else if d == 7 {
        "7"
    } else if d == 8 {
        "8"
    } else {
        "9"
    }
}

/// `n` in decimal.
pub fn decimal(n: usize) -> (r: String)
    ensures
        r@ == dec(n as nat),
    decreases n,
{
    if n < 10 {
        String::from_str(digit_str(n))
    } else {
        let mut s = decimal(n / 10);
        s.append(digit_str(n % 10));
        s
    }
}

/// `n` in decimal, left-padded with zeros to at least `width` characters.
pub fn pad_num(n: usize, width: usize) -> (r: String)
    ensures
        r@ == padded(n as nat, width as nat),
{
    let d = decimal(n);
    let len = d.as_str().unicode_len();
    if len >= width {
        return d;
    }
    let mut r = String::new();
    let mut i: usize = 0;
    while i < width - len
        invariant
            len < width,
            i <= width - len,
            r@ == zeros(i as nat),
        decreases width - len - i,
    {
        proof {
            reveal_strlit("0");
        }
        r.append("0");
        assert(r@ =~= zeros((i + 1) as nat));
        i = i + 1;
    }
    r.append(d.as_str());
    r
}

/// Index of the extension's dot in `s`, or `s@.len()` where there is none.
fn ext_dot_index(s: &str) -> (r: usize)
    ensures
        ext_dot(s@, s@.len() as int) < 0 ==> r == s@.len(),
        ext_dot(s@, s@.len() as int) >= 0 ==> r as int == ext_dot(s@, s@.len() as int),
        r <= s@.len(),
{
    proof {
        lemma_ext_dot_bound(s@, s@.len() as int);
    }
    let n = s.unicode_len();
    let mut i: usize = n;
    while i > 0
        invariant
            i <= n,
            n == s@.len(),
            ext_dot(s@, n as int) == ext_dot(s@, i as int),
        decreases i,
    {
        let c = s.get_char(i - 1);
        if c == '/' {
            return n;
        }
        if c == '.' && i - 1 > 0 && s.get_char(i - 2) != '/' {
            return i - 1;
        }
        i = i - 1;
    }
    n
}

/// The path `s` without the extension of its last component.
pub fn strip_extension(s: &str) -> (r: String)
    ensures
        r@ == strip_ext(s@),
{
    let k = ext_dot_index(s);
    let t = s.substring_char(0, k);
    proof {
        if ext_dot(s@, s@.len() as int) < 0 {
            assert(s@.subrange(0, s@.len() as int) =~= s@);
        }
    }
    String::from_str(t)
}

/// The extension of the last component of `s`, without its dot.
pub fn extension(s: &str) -> (r: String)
    ensures
        r@ == ext_of(s@),
{
    let k = ext_dot_index(s);
    let n = s.unicode_len();
    proof {
        lemma_ext_dot_bound(s@, s@.len() as int);
    }
    if k == n {
        return String::new();
    }
    String::from_str(s.substring_char(k + 1, n))
}

/// The path `name` inside directory `dir`.
pub fn join(dir: &str, name: &str) -> (r: String)
    ensures
        r@ == join_path(dir@, name@),
{
    let n = dir.unicode_len();
    if n == 0 {
        return String::from_str(name);
    }
    let mut r = String::from_str(dir);
    if dir.get_char(n - 1) != '/' {
        proof {
            reveal_strlit("/");
        }
        r.append("/");
    }
    r.append(name);
    r
}

/// A label cut to `DISPLAY_MAX` characters, with `...` marking the cut.
pub fn truncate_label(s: &str) -> (r: String)
    ensures
        r@ == truncated(s@),
{
    if s.unicode_len() <= DISPLAY_MAX {
        return String::from_str(s);
    }
    let mut r = String::from_str(s.substring_char(0, DISPLAY_MAX));
    proof {
        reveal_strlit("...");
    }
    r.append("...");
    r
}

} // verus!
