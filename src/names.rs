//! File names: the split into base and extension, and the names the renamer writes.
use vstd::prelude::*;

verus! {

/// Number of leading characters before the first `.` (the whole length if none).
pub open spec fn base_len(s: Seq<char>) -> nat
    decreases s.len(),
{
    if s.len() == 0 {
        0
    } else if s[0] == '.' {
        0
    } else {
        1 + base_len(s.drop_first())
    }
}

/// A well-formed file name holds an extension separator.
pub open spec fn has_dot(s: Seq<char>) -> bool {
    s.contains('.')
}

/// The characters before the first `.`.
pub open spec fn base_of(s: Seq<char>) -> Seq<char> {
    s.take(base_len(s) as int)
}

/// The characters after the first `.`.
pub open spec fn ext_of(s: Seq<char>) -> Seq<char> {
    s.skip(base_len(s) + 1int)
}

/// `base.ext` as characters.
pub open spec fn joined(base: Seq<char>, ext: Seq<char>) -> Seq<char> {
    base + seq!['.'] + ext
}

pub open spec fn digit_char(d: nat) -> char {
    if d == 0 {
        '0'
    } else if d == 1 {
        '1'
    } else if d == 2 {
        '2'
    } else if d == 3 {
        '3'
    } else if d == 4 {
        '4'
    } else if d == 5 {
        '5'
    } else if d == 6 {
        '6'
    } else if d == 7 {
        '7'
    } else if d == 8 {
        '8'
    } else {
        '9'
    }
}

/// Decimal notation of `n`, without leading zeros.
pub open spec fn decimal(n: nat) -> Seq<char>
    decreases n,
{
    if n < 10 {
        seq![digit_char(n)]
    } else {
        decimal(n / 10).push(digit_char(n % 10))
    }
}

/// The prefix of every temporary name.
pub open spec fn temp_prefix() -> Seq<char> {
    seq!['t', 'e', 'm', 'p', '_', 'n', 'a', 'm', 'e']
}

/// Temporary base name of the file at `index` of a batch.
pub open spec fn temp_base(index: nat) -> Seq<char> {
    temp_prefix() + decimal(index)
}

/// If position `i` is the first `.` of `s` (or its end when it has none), it is `base_len(s)`.
pub proof fn lemma_base_len(s: Seq<char>, i: int)
    requires
        0 <= i <= s.len(),
        forall|j: int| 0 <= j < i ==> s[j] != '.',
        i == s.len() || s[i] == '.',
    ensures
        base_len(s) == i,
    decreases i,
{
    if i > 0 {
        let t = s.drop_first();
        assert forall|j: int| 0 <= j < i - 1 implies t[j] != '.' by {
            assert(t[j] == s[j + 1]);
        }
        if i < s.len() {
            assert(t[i - 1] == s[i]);
        }
        lemma_base_len(t, i - 1);
    }
}

/// The base and extension put back together give the name.
pub proof fn lemma_split_joins(s: Seq<char>, i: int)
    requires
        0 <= i < s.len(),
        s[i] == '.',
        forall|j: int| 0 <= j < i ==> s[j] != '.',
    ensures
        base_len(s) == i,
        has_dot(s),
        joined(base_of(s), ext_of(s)) =~= s,
        !base_of(s).contains('.'),
{
    lemma_base_len(s, i);
    assert(s.contains('.')) by {
        assert(s[i] == '.');
    }
}

/// A name with no `.` in it.
pub proof fn lemma_no_dot(s: Seq<char>)
    requires
        forall|j: int| 0 <= j < s.len() ==> s[j] != '.',
    ensures
        !has_dot(s),
{
}

/// The extension of `base.ext` is `ext` when `base` holds no `.`.
pub proof fn lemma_ext_of_joined(base: Seq<char>, ext: Seq<char>)
    requires
        !base.contains('.'),
    ensures
        ext_of(joined(base, ext)) =~= ext,
        base_of(joined(base, ext)) =~= base,
{
    let s = joined(base, ext);
    assert forall|j: int| 0 <= j < base.len() implies s[j] != '.' by {
        assert(s[j] == base[j]);
    }
    assert(s[base.len() as int] == '.');
    lemma_base_len(s, base.len() as int);
}

/// Decimal notation holds no `.`.
pub proof fn lemma_decimal_no_dot(n: nat)
    ensures
        !decimal(n).contains('.'),
    decreases n,
{
    if n >= 10 {
        lemma_decimal_no_dot(n / 10);
        let d = decimal(n / 10);
        assert forall|j: int| 0 <= j < d.len() + 1 implies #[trigger] d.push(
            digit_char(n % 10),
        )[j] != '.' by {
            if j < d.len() {
                assert(d.push(digit_char(n % 10))[j] == d[j]);
            }
        }
    } else {
        assert(decimal(n)[0] != '.');
    }
}

/// The digit that `c` stands for.
pub open spec fn digit_value(c: char) -> nat {
    if c == '1' {
        1
    } else if c == '2' {
        2
    } else if c == '3' {
        3
    } else if c == '4' {
        4
    } else if c == '5' {
        5
    } else if c == '6' {
        6
    } else if c == '7' {
        7
    } else if c == '8' {
        8
    } else if c == '9' {
        9
    } else {
        0
    }
}

/// The number a string of decimal digits stands for.
pub open spec fn value_of(s: Seq<char>) -> nat
    decreases s.len(),
{
    if s.len() == 0 {
        0
    } else {
        value_of(s.drop_last()) * 10 + digit_value(s.last())
    }
}

/// Reading back the decimal notation of `n` gives `n`.
pub proof fn lemma_decimal_value(n: nat)
    ensures
        value_of(decimal(n)) == n,
    decreases n,
{
    let d = n % 10;
    assert(digit_value(digit_char(d)) == d);
    if n >= 10 {
        lemma_decimal_value(n / 10);
        assert(decimal(n).drop_last() =~= decimal(n / 10));
        assert(decimal(n).last() == digit_char(d));
        assert(n == (n / 10) * 10 + d);
        assert(decimal(n).len() > 0);
        assert(value_of(decimal(n)) == value_of(decimal(n).drop_last()) * 10 + digit_value(
            decimal(n).last(),
        ));
    } else {
        assert(decimal(n).drop_last() =~= Seq::<char>::empty());
        assert(digit_value(digit_char(n)) == n);
        assert(decimal(n).len() == 1);
        assert(value_of(decimal(n)) == value_of(decimal(n).drop_last()) * 10 + digit_value(
            decimal(n).last(),
        ));
        assert(value_of(Seq::<char>::empty()) == 0);
    }
}

/// Two numbers with the same decimal notation are equal.
pub proof fn lemma_decimal_injective(m: nat, n: nat)
    requires
        decimal(m) == decimal(n),
    ensures
        m == n,
{
    lemma_decimal_value(m);
    lemma_decimal_value(n);
}

/// Two temporary names with the same extension-free base come from the same position.
pub proof fn lemma_temp_base_injective(i: nat, j: nat)
    requires
        temp_base(i) == temp_base(j),
    ensures
        i == j,
{
    assert(temp_base(i).skip(9) =~= decimal(i));
    assert(temp_base(j).skip(9) =~= decimal(j));
    lemma_decimal_injective(i, j);
}

/// A temporary base name holds no `.`.
pub proof fn lemma_temp_base_no_dot(i: nat)
    ensures
        !temp_base(i).contains('.'),
{
    lemma_decimal_no_dot(i);
    let t = temp_base(i);
    assert forall|j: int| 0 <= j < t.len() implies t[j] != '.' by {
        if j >= 9 {
            assert(t[j] == decimal(i)[j - 9]);
        }
    }
}

fn digit_str(d: u64) -> (r: &'static str)
    requires
        d < 10,
    ensures
        r@ == seq![digit_char(d as nat)],
{
    proof {
        reveal_strlit("0");
        reveal_strlit("1");
        reveal_strlit("2");
        reveal_strlit("3");
        reveal_strlit("4");
        reveal_strlit("5");
        reveal_strlit("6");
        reveal_strlit("7");
        reveal_strlit("8");
        reveal_strlit("9");
    }
    let r = if d == 0 {
        "0"
    } else if d == 1 {
        "1"
    } else if d == 2 {
        "2"
    } else if d == 3 {
        "3"
    } else if d == 4 {
        "4"
    } else if d == 5 {
        "5"
    } else if d == 6 {
        "6"
    } else if d == 7 {
        "7"
    } else if d == 8 {
        "8"
    } else {
        "9"
    };
    assert(r@ =~= seq![digit_char(d as nat)]);
    r
}

/// Decimal notation of `n`: the numeric base names the renamer assigns.
pub fn decimal_string(n: u64) -> (r: String)
    ensures
        r@ == decimal(n as nat),
    decreases n,
{
    if n < 10 {
        String::from_str(digit_str(n))
    } else {
        let mut s = decimal_string(n / 10);
        s.append(digit_str(n % 10));
        s
    }
}

/// Splits a file name at its first `.` into base and extension; `None` when it has no `.`.
pub fn parse_name(name: &str) -> (r: Option<(String, String)>)
    ensures
        r is None <==> !has_dot(name@),
        r matches Some(p) ==> p.0@ == base_of(name@) && p.1@ == ext_of(name@),
{
    let n = name.unicode_len();
    let mut i: usize = 0;
    while i < n && name.get_char(i) != '.'
        invariant
            n == name@.len(),
            i <= n,
            forall|j: int| 0 <= j < i ==> name@[j] != '.',
        decreases n - i,
    {
        i = i + 1;
    }
    if i == n {
        proof {
            lemma_no_dot(name@);
        }
        None
    } else {
        proof {
            lemma_split_joins(name@, i as int);
        }
        let base = String::from_str(name.substring_char(0, i));
        let ext = String::from_str(name.substring_char(i + 1, n));
        Some((base, ext))
    }
}

/// `base.ext` as a file name.
pub fn join_name(base: &str, ext: &str) -> (r: String)
    ensures
        r@ == joined(base@, ext@),
{
    proof {
        reveal_strlit(".");
    }
    let mut r = String::from_str(base);
    r.append(".");
    r.append(ext);
    r
}

/// Temporary base name of the file at `index` of a batch: `temp_name` and the index.
pub fn temp_name(index: u64) -> (r: String)
    ensures
        r@ == temp_base(index as nat),
{
    proof {
        reveal_strlit("temp_name");
    }
    let mut r = String::from_str("temp_name");
    let d = decimal_string(index);
    r.append(d.as_str());
    assert(r@ =~= temp_base(index as nat));
    r
}

} // verus!
