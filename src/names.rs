//! Generated names ("New Animation", "New Animation 2", ...) and the
//! decimal notation they use.

use vstd::prelude::*;
use vstd::string::*;

verus! {

/// The character of a decimal digit.
pub open spec fn digit_char(d: nat) -> char {
    if d == 0 {
        '0'
    } else if d == 1 {
        '1'
    } else if d == 2 {
        '2'
    } else if d == 3 {
        '3'
    } else if d == 4 {
        '4'
    } else if d == 5 {
        '5'
    } else if d == 6 {
        '6'
    } else if d == 7 {
        '7'
    } else if d == 8 {
        '8'
    } else {
        '9'
    }
}

/// The decimal notation of a natural number, without leading zeros.
pub open spec fn decimal(n: nat) -> Seq<char>
    decreases n,
{
    if n < 10 {
        seq![digit_char(n)]
    } else {
        decimal(n / 10).push(digit_char(n % 10))
    }
}

/// The `k`-th candidate for a generated name: the base itself for the first,
/// then the base followed by a space and the number.
pub open spec fn numbered_name(base: Seq<char>, k: nat) -> Seq<char> {
    if k <= 1 {
        base
    } else {
        base + seq![' '] + decimal(k)
    }
}

/// `k` is the first candidate number whose name is not taken.
pub open spec fn is_first_free(base: Seq<char>, taken: Seq<Seq<char>>, k: nat) -> bool {
    &&& k >= 1
    &&& !taken.contains(numbered_name(base, k))
    &&& forall|j: nat| 1 <= j < k ==> taken.contains(#[trigger] numbered_name(base, j))
}

/// The first generated name, in candidate order, that is not among `taken`.
pub open spec fn first_free_name(base: Seq<char>, taken: Seq<Seq<char>>) -> Seq<char> {
    numbered_name(base, choose|k: nat| is_first_free(base, taken, k))
}

proof fn lemma_decimal_len(n: nat)
    ensures
        decimal(n).len() >= 1,
        n >= 10 ==> decimal(n).len() >= 2,
    decreases n,
{
    if n >= 10 {
        lemma_decimal_len(n / 10);
    }
}

proof fn lemma_digit_char_injective(a: nat, b: nat)
    requires
        a < 10,
        b < 10,
        digit_char(a) == digit_char(b),
    ensures
        a == b,
{
}

proof fn lemma_decimal_injective(a: nat, b: nat)
    requires
        decimal(a) == decimal(b),
    ensures
        a == b,
    decreases a,
{
    lemma_decimal_len(a);
    lemma_decimal_len(b);
    if a < 10 && b < 10 {
        assert(decimal(a)[0] == digit_char(a));
        assert(decimal(b)[0] == digit_char(b));
        lemma_digit_char_injective(a, b);
    } else if a >= 10 && b >= 10 {
        let da = decimal(a);
        let db = decimal(b);
        assert(da.last() == db.last());
        lemma_digit_char_injective(a % 10, b % 10);
        assert(da.drop_last() =~= decimal(a / 10));
        assert(db.drop_last() =~= decimal(b / 10));
        lemma_decimal_injective(a / 10, b / 10);
    }
}

proof fn lemma_numbered_name_injective(base: Seq<char>, j: nat, k: nat)
    requires
        j >= 1,
        k >= 1,
        numbered_name(base, j) == numbered_name(base, k),
    ensures
        j == k,
{
    lemma_decimal_len(j);
    lemma_decimal_len(k);
    if j >= 2 && k >= 2 {
        let pre = base + seq![' '];
        assert(numbered_name(base, j).subrange(pre.len() as int, numbered_name(base, j).len() as int)
            =~= decimal(j));
        assert(numbered_name(base, k).subrange(pre.len() as int, numbered_name(base, k).len() as int)
            =~= decimal(k));
        lemma_decimal_injective(j, k);
    } else if j >= 2 {
        assert(numbered_name(base, j).len() > base.len());
    } else if k >= 2 {
        assert(numbered_name(base, k).len() > base.len());
    }
}

/// Among the first `taken.len() + 1` candidates, one is free.
proof fn lemma_some_candidate_free(base: Seq<char>, taken: Seq<Seq<char>>)
    ensures
        exists|k: nat| 1 <= k <= taken.len() + 1 && !taken.contains(#[trigger] numbered_name(base, k)),
{
    if forall|k: nat| 1 <= k <= taken.len() + 1 ==> taken.contains(#[trigger] numbered_name(base, k)) {
        let n = taken.len();
        let cands = Seq::new(n + 1, |i: int| numbered_name(base, (i + 1) as nat));
        assert forall|a: int, b: int| 0 <= a < cands.len() && 0 <= b < cands.len() && a != b
            implies cands[a] != cands[b] by {
            if cands[a] == cands[b] {
                lemma_numbered_name_injective(base, (a + 1) as nat, (b + 1) as nat);
            }
        }
        assert(cands.no_duplicates());
        cands.unique_seq_to_set();
        assert forall|x: Seq<char>| cands.to_set().contains(x) implies taken.to_set().contains(x) by {
            let i = choose|i: int| 0 <= i < cands.len() && cands[i] == x;
            assert(taken.contains(numbered_name(base, (i + 1) as nat)));
        }
        taken.lemma_cardinality_of_set();
        vstd::set_lib::lemma_len_subset(cands.to_set(), taken.to_set());
        assert(false);
    }
}

proof fn lemma_first_free_unique(base: Seq<char>, taken: Seq<Seq<char>>, k: nat)
    requires
        is_first_free(base, taken, k),
    ensures
        first_free_name(base, taken) == numbered_name(base, k),
{
    let c = choose|c: nat| is_first_free(base, taken, c);
    assert(is_first_free(base, taken, c));
    if c < k {
        assert(taken.contains(numbered_name(base, c)));
    } else if k < c {
        assert(taken.contains(numbered_name(base, k)));
    }
}

/// Names generated one after another, with nothing else taken, are the
/// base name and then the base followed by 2, 3, ...: when the first `k`
/// candidates are taken, the next name is candidate `k + 1`.
pub proof fn lemma_names_in_sequence(base: Seq<char>, k: nat)
    ensures
        first_free_name(base, Seq::new(k, |i: int| numbered_name(base, (i + 1) as nat)))
            == numbered_name(base, k + 1),
{
    let taken = Seq::new(k, |i: int| numbered_name(base, (i + 1) as nat));
    assert forall|j: nat| 1 <= j < k + 1 implies taken.contains(#[trigger] numbered_name(base, j)) by {
        assert(taken[j - 1] == numbered_name(base, j));
    }
    if taken.contains(numbered_name(base, k + 1)) {
        let i = choose|i: int| 0 <= i < taken.len() && taken[i] == numbered_name(base, k + 1);
        lemma_numbered_name_injective(base, (i + 1) as nat, k + 1);
    }
    assert(is_first_free(base, taken, k + 1));
    lemma_first_free_unique(base, taken, k + 1);
}

fn digit_str(d: u128) -> (r: &'static str)
    requires
        d < 10,
    ensures
        r@ == seq![digit_char(d as nat)],
{
    proof {
        reveal_strlit("0");
        reveal_strlit("1");
        reveal_strlit("2");
        reveal_strlit("3");
        reveal_strlit("4");
        reveal_strlit("5");
        reveal_strlit("6");
        reveal_strlit("7");
        reveal_strlit("8");
        reveal_strlit("9");
    }
    if d == 0 {
        "0"
    } else if d == 1 {
        "1"
    } else if d == 2 {
        "2"
    } else if d == 3 {
        "3"
    } else if d == 4 {
        "4"
    } else if d == 5 {
        "5"
    } else if d == 6 {
        "6"
    } else if d == 7 {
        "7"
    } else if d == 8 {
        "8"
    } else {
        "9"
    }
}

/// Decimal notation of `n`.
pub fn decimal_string(n: u128) -> (r: String)
    ensures
        r@ == decimal(n as nat),
    decreases n,
{
    if n < 10 {
        String::from_str(digit_str(n))
    } else {
        let s = decimal_string(n / 10);
        let r = s.concat(digit_str(n % 10));
        assert(r@ =~= decimal(n as nat));
        r
    }
}

/// The `k`-th candidate name built on `base`.
pub fn numbered_name_string(base: &str, k: u128) -> (r: String)
    ensures
        r@ == numbered_name(base@, k as nat),
{
    if k <= 1 {
        base.to_owned()
    } else {
        proof {
            reveal_strlit(" ");
        }
        let s = base.to_owned().concat(" ");
        let d = decimal_string(k);
        let r = s.concat(d.as_str());
        assert(r@ =~= numbered_name(base@, k as nat));
        r
    }
}

/// The character sequences that a list of strings holds.
pub open spec fn string_views(v: Seq<String>) -> Seq<Seq<char>> {
    v.map_values(|s: String| s@)
}

/// Whether no string of `v` appears twice.
pub fn all_distinct(v: &Vec<String>) -> (r: bool)
    ensures
        r == string_views(v@).no_duplicates(),
{
    let ghost sv = string_views(v@);
    let mut i: usize = 0;
    while i < v.len()
        invariant
            i <= v@.len(),
            sv == string_views(v@),
            forall|a: int, b: int| 0 <= a < b < sv.len() && a < i ==> sv[a] != sv[b],
        decreases v.len() - i,
    {
        let mut j: usize = i + 1;
        while j < v.len()
            invariant
                i < j <= v@.len(),
                sv == string_views(v@),
                forall|a: int, b: int| 0 <= a < b < sv.len() && a < i ==> sv[a] != sv[b],
                forall|b: int| i < b < j ==> sv[i as int] != sv[b],
            decreases v.len() - j,
        {
            if v[i] == v[j] {
                assert(sv[i as int] == sv[j as int]);
                return false;
            }
            j += 1;
        }
        i += 1;
    }
    true
}

/// Whether `name` is one of `taken`.
pub fn contains_name(taken: &Vec<String>, name: &String) -> (r: bool)
    ensures
        r == string_views(taken@).contains(name@),
{
    let ghost views = string_views(taken@);
    let mut i: usize = 0;
    while i < taken.len()
        invariant
            i <= taken.len(),
            views == string_views(taken@),
            forall|j: int| 0 <= j < i ==> views[j] != name@,
        decreases taken.len() - i,
    {
        if taken[i] == *name {
            assert(views[i as int] == name@);
            return true;
        }
        i += 1;
    }
    false
}

/// The first name among `base`, `base 2`, `base 3`, ... that `taken` does not hold.
pub fn first_free_name_string(base: &str, taken: &Vec<String>) -> (r: String)
    ensures
        r@ == first_free_name(base@, string_views(taken@)),
        !string_views(taken@).contains(r@),
{
    let ghost views = string_views(taken@);
    proof {
        lemma_some_candidate_free(base@, views);
    }
    let mut k: u128 = 1;
    let mut name = numbered_name_string(base, k);
    while contains_name(taken, &name)
        invariant
            1 <= k <= views.len() + 1,
            views.len() == taken.len(),
            views == string_views(taken@),
            name@ == numbered_name(base@, k as nat),
            exists|m: nat| 1 <= m <= views.len() + 1 && !views.contains(#[trigger] numbered_name(base@, m)),
            forall|j: nat| 1 <= j < k ==> views.contains(#[trigger] numbered_name(base@, j)),
        decreases views.len() + 1 - k,
    {
        if k > taken.len() as u128 {
            let ghost m = choose|m: nat| 1 <= m <= views.len() + 1 && !views.contains(#[trigger] numbered_name(base@, m));
            assert(views.contains(numbered_name(base@, m)));
        }
        k = k + 1;
        name = numbered_name_string(base, k);
    }
    proof {
        assert(is_first_free(base@, views, k as nat));
        lemma_first_free_unique(base@, views, k as nat);
    }
    name
}

} // verus!
