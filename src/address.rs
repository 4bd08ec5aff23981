use vstd::prelude::*;

verus! {

/// The character of a decimal digit.
pub open spec fn digit_char(d: int) -> char {
    if d == 0 {
        '0'
    } else if d == 1 {
        '1'
    } else if d == 2 {
        '2'
    } else if d == 3 {
        '3'
    } else if d == 4 {
        '4'
    } else if d == 5 {
        '5'
    } else if d == 6 {
        '6'
    } else if d == 7 {
        '7'
    } else if d == 8 {
        '8'
    } else {
        '9'
    }
}

/// The decimal text of `n`, without leading zeros.
pub open spec fn decimal(n: nat) -> Seq<char>
    decreases n,
{
    if n < 10 {
        seq![digit_char(n as int)]
    } else {
        decimal(n / 10).push(digit_char((n % 10) as int))
    }
}

/// The address of host `n` in the subnet written as `prefix` (e.g. "192.168.1.").
pub open spec fn host_address(prefix: Seq<char>, n: nat) -> Seq<char> {
    prefix + decimal(n)
}

/// Lexicographic order on character sequences, comparing from position `i` on.
pub open spec fn lex_lt_from(a: Seq<char>, b: Seq<char>, i: nat) -> bool
    decreases a.len() - i,
{
    if i >= b.len() {
        false
    } else if i >= a.len() {
        true
    } else if a[i as int] != b[i as int] {
        a[i as int] < b[i as int]
    } else {
        lex_lt_from(a, b, i + 1)
    }
}

/// Lexicographic (string) order: the order in which `String`s compare.
pub open spec fn lex_lt(a: Seq<char>, b: Seq<char>) -> bool {
    lex_lt_from(a, b, 0)
}

/// Everything before the last '.' of `ip` (all of it when there is none), then a '.'.
pub open spec fn subnet_prefix(ip: Seq<char>) -> Seq<char> {
    if exists|k: int| 0 <= k < ip.len() && ip[k] == '.' {
        let k = choose|k: int|
            0 <= k < ip.len() && ip[k] == '.' && forall|j: int| k < j < ip.len() ==> ip[j] != '.';
        ip.subrange(0, k).push('.')
    } else {
        ip.push('.')
    }
}

pub proof fn lemma_decimal_len(n: nat)
    ensures
        decimal(n).len() >= 1,
        decimal(n).len() == 1 <==> n < 10,
    decreases n,
{
    if n >= 10 {
        lemma_decimal_len(n / 10);
    }
}

/// Different host numbers have different decimal texts.
pub proof fn lemma_decimal_injective(a: nat, b: nat)
    requires
        decimal(a) == decimal(b),
    ensures
        a == b,
    decreases a,
{
    lemma_decimal_len(a);
    lemma_decimal_len(b);
    let da = decimal(a);
    let db = decimal(b);
    if a < 10 {
        assert(da[0] == digit_char(a as int));
        assert(db[0] == digit_char(b as int));
    } else {
        assert(da.last() == digit_char((a % 10) as int));
        assert(db.last() == digit_char((b % 10) as int));
        assert(a % 10 == b % 10);
        assert(da.drop_last() =~= decimal(a / 10));
        assert(db.drop_last() =~= decimal(b / 10));
        lemma_decimal_injective(a / 10, b / 10);
        assert(a == 10 * (a / 10) + a % 10) by (nonlinear_arith);
        assert(b == 10 * (b / 10) + b % 10) by (nonlinear_arith);
    }
}

/// Within one subnet, different host numbers give different addresses.
pub proof fn lemma_host_address_injective(prefix: Seq<char>, a: nat, b: nat)
    requires
        host_address(prefix, a) == host_address(prefix, b),
    ensures
        a == b,
{
    let x = host_address(prefix, a);
    let y = host_address(prefix, b);
    assert(x.subrange(prefix.len() as int, x.len() as int) =~= decimal(a));
    assert(y.subrange(prefix.len() as int, y.len() as int) =~= decimal(b));
    lemma_decimal_injective(a, b);
}

proof fn lemma_lex_irreflexive_from(a: Seq<char>, i: nat)
    ensures
        !lex_lt_from(a, a, i),
    decreases a.len() - i,
{
    if i < a.len() {
        lemma_lex_irreflexive_from(a, i + 1);
    }
}

proof fn lemma_lex_total_from(a: Seq<char>, b: Seq<char>, i: nat)
    requires
        a.subrange(0, i as int) == b.subrange(0, i as int),
        i <= a.len(),
        i <= b.len(),
        a != b,
    ensures
        lex_lt_from(a, b, i) || lex_lt_from(b, a, i),
    decreases a.len() - i,
{
    if i >= a.len() && i >= b.len() {
        assert(a =~= a.subrange(0, i as int));
        assert(b =~= b.subrange(0, i as int));
    } else if i < a.len() && i < b.len() && a[i as int] == b[i as int] {
        assert(a.subrange(0, i + 1 as int) =~= a.subrange(0, i as int).push(a[i as int]));
        assert(b.subrange(0, i + 1 as int) =~= b.subrange(0, i as int).push(b[i as int]));
        lemma_lex_total_from(a, b, i + 1);
    } else if i < a.len() && i < b.len() {
    }
}

proof fn lemma_lex_transitive_from(a: Seq<char>, b: Seq<char>, c: Seq<char>, i: nat)
    requires
        lex_lt_from(a, b, i),
        lex_lt_from(b, c, i),
    ensures
        lex_lt_from(a, c, i),
    decreases a.len() - i,
{
    if i < a.len() && i < b.len() && i < c.len() && a[i as int] == b[i as int] && b[i as int]
        == c[i as int] {
        lemma_lex_transitive_from(a, b, c, i + 1);
    }
}

/// No sequence comes before itself.
pub proof fn lemma_lex_irreflexive(a: Seq<char>)
    ensures
        !lex_lt(a, a),
{
    lemma_lex_irreflexive_from(a, 0);
}

/// Of two different sequences, one comes first.
pub proof fn lemma_lex_total(a: Seq<char>, b: Seq<char>)
    requires
        a != b,
    ensures
        lex_lt(a, b) || lex_lt(b, a),
{
    assert(a.subrange(0, 0) =~= b.subrange(0, 0));
    lemma_lex_total_from(a, b, 0);
}

pub proof fn lemma_lex_transitive(a: Seq<char>, b: Seq<char>, c: Seq<char>)
    requires
        lex_lt(a, b),
        lex_lt(b, c),
    ensures
        lex_lt(a, c),
{
    lemma_lex_transitive_from(a, b, c, 0);
}

pub proof fn lemma_lex_asymmetric(a: Seq<char>, b: Seq<char>)
    requires
        lex_lt(a, b),
    ensures
        !lex_lt(b, a),
{
    if lex_lt(b, a) {
        lemma_lex_transitive(a, b, a);
        lemma_lex_irreflexive(a);
    }
}

fn digit_text(d: u32) -> (r: &'static str)
    requires
        d < 10,
    ensures
        r@ == seq![digit_char(d as int)],
{
    proof {
        reveal_strlit("0");
        reveal_strlit("1");
        reveal_strlit("2");
        reveal_strlit("3");
        reveal_strlit("4");
        reveal_strlit("5");
        reveal_strlit("6");
        reveal_strlit("7");
        reveal_strlit("8");
        reveal_strlit("9");
    }
    match d {
        0 => "0",
        1 => "1",
        2 => "2",
        3 => "3",
        4 => "4",
        5 => "5",
        6 => "6",
        7 => "7",
        8 => "8",
        _ => "9",
    }
}

/// Appends the decimal text of `n` to `s`.
pub fn push_decimal(s: &mut String, n: u32)
    ensures
        final(s)@ == old(s)@ + decimal(n as nat),
    decreases n,
{
    if n >= 10 {
        push_decimal(s, n / 10);
    }
    s.append(digit_text(n % 10));
    proof {
        if n >= 10 {
            assert(decimal(n as nat) == decimal((n / 10) as nat).push(digit_char((n % 10) as int)));
        }
    }
    assert(final(s)@ =~= old(s)@ + decimal(n as nat));
}

/// The address of host `n` in the subnet `prefix`: the prefix, then `n` in decimal.
pub fn host_address_of(prefix: &str, n: u32) -> (r: String)
    ensures
        r@ == host_address(prefix@, n as nat),
{
    let mut s = String::from_str(prefix);
    push_decimal(&mut s, n);
    s
}

/// Whether `a` comes strictly before `b` in string order.
pub fn str_less(a: &str, b: &str) -> (r: bool)
    ensures
        r == lex_lt(a@, b@),
{
    let la = a.unicode_len();
    let lb = b.unicode_len();
    let mut i: usize = 0;
    while i < la && i < lb
        invariant
            la == a@.len(),
            lb == b@.len(),
            i <= la,
            i <= lb,
            lex_lt(a@, b@) == lex_lt_from(a@, b@, i as nat),
        decreases la - i,
    {
        let ca = a.get_char(i);
        let cb = b.get_char(i);
        if ca != cb {
            return ca < cb;
        }
        i = i + 1;
    }
    i < lb
}

/// The subnet prefix of a dotted address: everything up to and including its last '.'.
/// An address without a '.' is taken whole, with a '.' added.
pub fn subnet_prefix_of(ip: &str) -> (r: String)
    ensures
        r@ == subnet_prefix(ip@),
{
    let n = ip.unicode_len();
    let mut k: usize = n;
    while k > 0
        invariant
            n == ip@.len(),
            k <= n,
            forall|j: int| k <= j < n ==> ip@[j] != '.',
        decreases k,
    {
        if ip.get_char(k - 1) == '.' {
            let head = ip.substring_char(0, k - 1);
            let mut r = String::from_str(head);
            proof {
                reveal_strlit(".");
            }
            r.append(".");
            proof {
                let kk = (k - 1) as int;
                assert(exists|j: int| 0 <= j < ip@.len() && ip@[j] == '.') by {
                    assert(ip@[kk] == '.');
                }
                let c = choose|j: int|
                    0 <= j < ip@.len() && ip@[j] == '.' && forall|m: int|
                        j < m < ip@.len() ==> ip@[m] != '.';
                assert(0 <= kk < ip@.len() && ip@[kk] == '.' && forall|m: int|
                    kk < m < ip@.len() ==> ip@[m] != '.');
                if c < kk {
                    assert(ip@[kk] != '.');
                }
                if c > kk {
                    assert(ip@[c] != '.');
                }
                assert(r@ =~= ip@.subrange(0, kk).push('.'));
            }
            return r;
        }
        k = k - 1;
    }
    let mut r = String::from_str(ip);
    proof {
        reveal_strlit(".");
    }
    r.append(".");
    assert(r@ =~= ip@.push('.'));
    r
}

} // verus!
