use vstd::prelude::*;
use vstd::seq_lib::*;
use vstd::set_lib::lemma_len_subset;
use vstd::string::*;

verus! {

// A `Scope` maps source-level identifiers to target-safe, unique target-level
// names.  Entries are append-only; a later entry for the same source name
// shadows an earlier one, so every target name ever handed out stays recorded,
// and freshness checks range over the whole history of the scope value.

/// One dash-replacement step: the only character rewriting needed to make a
/// source name safe for both targets.
pub open spec fn safe_char(c: char) -> char {
    if c == '-' {
        '_'
    } else {
        c
    }
}

/// Character-wise dash replacement.
pub open spec fn safe_map(s: Seq<char>) -> Seq<char> {
    s.map_values(|c: char| safe_char(c))
}

/// The target-safe form of a source name: dashes become underscores, except
/// that the bare subtraction operator `-` is kept as it is.
pub open spec fn safe_seq(name: Seq<char>) -> Seq<char> {
    if name == seq!['-'] {
        name
    } else {
        safe_map(name)
    }
}

/// The decimal digit character for `d < 10`.
pub open spec fn digit_char(d: nat) -> char {
    if d == 0 {
        '0'
    } else if d == 1 {
        '1'
    } else if d == 2 {
        '2'
    } else if d == 3 {
        '3'
    } else if d == 4 {
        '4'
    } else if d == 5 {
        '5'
    } else if d == 6 {
        '6'
    } else if d == 7 {
        '7'
    } else if d == 8 {
        '8'
    } else {
        '9'
    }
}

/// The decimal representation of a natural number, most significant digit
/// first, with no leading zeros (except for the number zero itself).
pub open spec fn dec_rep(n: nat) -> Seq<char>
    decreases n,
{
    if n < 10 {
        seq![digit_char(n)]
    } else {
        dec_rep(n / 10).push(digit_char(n % 10))
    }
}

/// The `k`-th collision-avoidance candidate for a base name: the base itself,
/// then the base followed by an increasing decimal suffix.
pub open spec fn suffixed(base: Seq<char>, k: nat) -> Seq<char> {
    if k == 0 {
        base
    } else {
        base + dec_rep(k)
    }
}

/// The model of a scope: source name / target name pairs, in registration
/// order.
pub type ScopeModel = Seq<(Seq<char>, Seq<char>)>;

/// Lookup resolves to the most recently registered entry for a source name.
pub open spec fn scope_lookup(s: ScopeModel, name: Seq<char>) -> Option<Seq<char>>
    decreases s.len(),
{
    if s.len() == 0 {
        None
    } else if s.last().0 == name {
        Some(s.last().1)
    } else {
        scope_lookup(s.drop_last(), name)
    }
}

/// Whether some entry of the scope already uses `t` as its target name.
pub open spec fn has_target(s: ScopeModel, t: Seq<char>) -> bool {
    exists|i: int| 0 <= i < s.len() && s[i].1 == t
}

/// All target names in the scope are pairwise distinct.
pub open spec fn targets_distinct(s: ScopeModel) -> bool {
    forall|i: int, j: int| 0 <= i < j < s.len() ==> s[i].1 != s[j].1
}

/// `k` is the suffix index registration settles on: the first candidate not
/// yet used as a target name.
pub open spec fn is_first_free(s: ScopeModel, base: Seq<char>, k: nat) -> bool {
    &&& !has_target(s, suffixed(base, k))
    &&& forall|j: nat| j < k ==> has_target(s, #[trigger] suffixed(base, j))
}

/// The suffix index registration settles on (uniquely determined).
pub open spec fn chosen_suffix(s: ScopeModel, base: Seq<char>) -> nat {
    choose|k: nat| is_first_free(s, base, k)
}

/// The target name produced by registering a name whose safe form is `base`.
pub open spec fn reg_target(s: ScopeModel, base: Seq<char>) -> Seq<char> {
    suffixed(base, chosen_suffix(s, base))
}

/// The scope after registering `name`.
pub open spec fn reg_push(s: ScopeModel, name: Seq<char>) -> ScopeModel {
    s.push((name, reg_target(s, safe_seq(name))))
}

proof fn lemma_dec_rep_len(n: nat)
    ensures
        dec_rep(n).len() >= 1,
        n >= 10 ==> dec_rep(n).len() >= 2,
    decreases n,
{
    if n >= 10 {
        lemma_dec_rep_len(n / 10);
    }
}

proof fn lemma_dec_rep_injective(a: nat, b: nat)
    requires
        dec_rep(a) == dec_rep(b),
    ensures
        a == b,
    decreases a,
{
    lemma_dec_rep_len(a);
    lemma_dec_rep_len(b);
    if a < 10 && b < 10 {
        assert(dec_rep(a)[0] == digit_char(a));
        assert(dec_rep(b)[0] == digit_char(b));
    } else if a < 10 {
        assert(dec_rep(a).len() == 1);
    } else if b < 10 {
        assert(dec_rep(b).len() == 1);
    } else {
        assert(dec_rep(a).last() == digit_char(a % 10));
        assert(dec_rep(b).last() == digit_char(b % 10));
        assert(dec_rep(a).drop_last() == dec_rep(a / 10));
        assert(dec_rep(b).drop_last() == dec_rep(b / 10));
        lemma_dec_rep_injective(a / 10, b / 10);
        assert(a % 10 == b % 10);
        assert(a == 10 * (a / 10) + a % 10) by (nonlinear_arith);
        assert(b == 10 * (b / 10) + b % 10) by (nonlinear_arith);
    }
}

proof fn lemma_suffixed_injective(base: Seq<char>, j: nat, k: nat)
    requires
        suffixed(base, j) == suffixed(base, k),
    ensures
        j == k,
{
    lemma_dec_rep_len(j);
    lemma_dec_rep_len(k);
    if j == 0 && k != 0 {
        assert(suffixed(base, k).len() > base.len());
    } else if j != 0 && k == 0 {
        assert(suffixed(base, j).len() > base.len());
    } else if j != 0 && k != 0 {
        assert(suffixed(base, j).len() == base.len() + dec_rep(j).len());
        assert(suffixed(base, k).len() == base.len() + dec_rep(k).len());
        assert(dec_rep(j).len() == dec_rep(k).len());
        assert(dec_rep(j) =~= dec_rep(k)) by {
            assert(forall|i: int| 0 <= i < dec_rep(j).len() ==> dec_rep(j)[i] == dec_rep(k)[i])
                by {
                assert forall|i: int| 0 <= i < dec_rep(j).len() implies dec_rep(j)[i] == dec_rep(
                    k,
                )[i] by {
                    assert(dec_rep(j)[i] == (base + dec_rep(j))[base.len() + i]);
                    assert(dec_rep(k)[i] == (base + dec_rep(k))[base.len() + i]);
                }
            }
        }
        lemma_dec_rep_injective(j, k);
    }
}

/// If the first `m` candidates for `base` all collide with stored target
/// names, the scope must hold at least `m` entries: candidates are pairwise
/// distinct and each one needs a distinct colliding entry.
proof fn lemma_tried_bound(s: ScopeModel, base: Seq<char>, m: nat)
    requires
        forall|k: nat| k < m ==> has_target(s, #[trigger] suffixed(base, k)),
    ensures
        m <= s.len(),
{
    let tried = Seq::new(m, |k: int| suffixed(base, k as nat));
    assert(tried.no_duplicates()) by {
        assert forall|i: int, j: int| 0 <= i < tried.len() && 0 <= j < tried.len() && i != j
            implies tried[i] != tried[j] by {
            if tried[i] == tried[j] {
                lemma_suffixed_injective(base, i as nat, j as nat);
            }
        }
    }
    tried.unique_seq_to_set();
    let vals = Seq::new(s.len(), |i: int| s[i].1);
    vals.lemma_cardinality_of_set();
    assert(tried.to_set().subset_of(vals.to_set())) by {
        assert forall|t: Seq<char>| tried.to_set().contains(t) implies vals.to_set().contains(
            t,
        ) by {
            let k = choose|k: int| 0 <= k < tried.len() && tried[k] == t;
            assert(has_target(s, suffixed(base, k as nat)));
            let w = choose|i: int| 0 <= i < s.len() && s[i].1 == suffixed(base, k as nat);
            assert(vals[w] == t);
        }
    }
    broadcast use seq_to_set_is_finite;

    lemma_len_subset(tried.to_set(), vals.to_set());
}

proof fn lemma_first_free_unique(s: ScopeModel, base: Seq<char>, k1: nat, k2: nat)
    requires
        is_first_free(s, base, k1),
        is_first_free(s, base, k2),
    ensures
        k1 == k2,
{
    if k1 < k2 {
        assert(has_target(s, suffixed(base, k1)));
    } else if k2 < k1 {
        assert(has_target(s, suffixed(base, k2)));
    }
}

/// Relies on `u128`'s `Display` implementation, which formats the value as
/// its decimal digits.
#[verifier::external_body]
fn u128_to_string(n: u128) -> (r: String)
    ensures
        r@ == dec_rep(n as nat),
{
    n.to_string()
}

/// Relies on `str::replace` with a single-character pattern, which replaces
/// every occurrence of that character, one for one.
#[verifier::external_body]
fn replace_dashes(s: &str) -> (r: String)
    ensures
        r@ == safe_map(s@),
{
    s.replace('-', "_")
}

/// Character-by-character string comparison.
pub fn str_eq(a: &str, b: &str) -> (r: bool)
    ensures
        r == (a@ == b@),
{
    let la = a.unicode_len();
    let lb = b.unicode_len();
    if la != lb {
        return false;
    }
    let mut i: usize = 0;
    while i < la
        invariant
            la == a@.len(),
            la == b@.len(),
            0 <= i <= la,
            forall|j: int| 0 <= j < i ==> a@[j] == b@[j],
        decreases la - i,
    {
        if a.get_char(i) != b.get_char(i) {
            return false;
        }
        i += 1;
    }
    proof {
        assert(a@ =~= b@);
    }
    true
}

/// The target-safe form of a source name: dashes become underscores, except
/// that the bare subtraction operator keeps its name.
pub fn safe_name(symbol_name: &str) -> (r: String)
    ensures
        r@ == safe_seq(symbol_name@),
{
    proof {
        reveal_strlit("-");
        assert("-"@ =~= seq!['-']);
    }
    if str_eq(symbol_name, "-") {
        symbol_name.to_owned()
    } else {
        replace_dashes(symbol_name)
    }
}

/// A per-compilation-unit symbol table mapping source names to target-safe,
/// unique target-level names.
#[derive(Debug)]
pub struct Scope {
    entries: Vec<(String, String)>,
}

impl View for Scope {
    type V = ScopeModel;

    closed spec fn view(&self) -> ScopeModel {
        self.entries@.map_values(|p: (String, String)| (p.0@, p.1@))
    }
}

impl Scope {
    pub fn new() -> (s: Self)
        ensures
            s@ == Seq::<(Seq<char>, Seq<char>)>::empty(),
    {
        let s = Scope { entries: Vec::new() };
        proof {
            assert(s@ =~= Seq::<(Seq<char>, Seq<char>)>::empty());
        }
        s
    }

    /// Whether `target` is already in use as a target name in this scope.
    pub fn contains_target(&self, target: &str) -> (r: bool)
        ensures
            r == has_target(self@, target@),
    {
        let mut i: usize = 0;
        while i < self.entries.len()
            invariant
                0 <= i <= self.entries.len(),
                self@.len() == self.entries.len(),
                forall|j: int| 0 <= j < i ==> self@[j].1 != target@,
            decreases self.entries.len() - i,
        {
            if str_eq(self.entries[i].1.as_str(), target) {
                proof {
                    assert(self@[i as int].1 == target@);
                }
                return true;
            }
            i += 1;
        }
        false
    }

    /// Registers a source name and returns the unique target name chosen for
    /// it: the dash-safe form of the name, with the smallest decimal suffix
    /// (none, then 1, 2, ...) that no earlier registration already produced.
    pub fn register(&mut self, local: String) -> (res: String)
        ensures
            final(self)@ == reg_push(old(self)@, local@),
            final(self)@ == old(self)@.push((local@, res@)),
            res@ == reg_target(old(self)@, safe_seq(local@)),
            !has_target(old(self)@, res@),
    {
        let ghost base_s = safe_seq(local@);
        let base = safe_name(local.as_str());
        let cap = self.entries.len();
        let mut cand = base.clone();
        let mut k: u128 = 0;
        while self.contains_target(cand.as_str())
            invariant
                base@ == base_s,
                cand@ == suffixed(base_s, k as nat),
                forall|j: nat| j < k ==> has_target(self@, #[trigger] suffixed(base_s, j)),
                k <= cap,
                cap == self.entries@.len(),
                self@.len() == self.entries@.len(),
            decreases cap - k,
        {
            proof {
                assert forall|j: nat| j < k + 1 implies has_target(
                    self@,
                    #[trigger] suffixed(base_s, j),
                ) by {
                    if j == k as nat {
                        assert(has_target(self@, cand@));
                    }
                }
                lemma_tried_bound(self@, base_s, (k + 1) as nat);
            }
            k = k + 1;
            let suffix = u128_to_string(k);
            cand = base.clone();
            cand.append(suffix.as_str());
        }
        proof {
            assert(is_first_free(self@, base_s, k as nat));
            let ck = chosen_suffix(self@, base_s);
            assert(is_first_free(self@, base_s, ck));
            lemma_first_free_unique(self@, base_s, k as nat, ck);
        }
        let res = cand.clone();
        let ghost pre = self@;
        self.entries.push((local, cand));
        proof {
            assert(self@ =~= pre.push((local@, res@)));
        }
        res
    }

    /// Synthesizes and registers a fresh temporary name, built from the given
    /// prefix (`sym` by default) and the current size of the scope.
    pub fn symbol(&mut self, prefix: Option<&str>) -> (res: String)
        ensures
            ({
                let pref = match prefix {
                    Some(p) => p@,
                    None => "sym"@,
                };
                let name = pref + dec_rep((old(self)@.len() + 1) as nat);
                &&& final(self)@ == reg_push(old(self)@, name)
                &&& final(self)@ == old(self)@.push((name, res@))
                &&& res@ == reg_target(old(self)@, safe_seq(name))
                &&& !has_target(old(self)@, res@)
            }),
    {
        proof {
            assert(self@.len() == self.entries@.len());
        }
        let nth: u128 = (self.entries.len() as u128) + 1;
        let num = u128_to_string(nth);
        let mut name = match prefix {
            Some(p) => p.to_owned(),
            None => {
                let s: String = "sym".to_owned();
                s
            },
        };
        name.append(num.as_str());
        self.register(name)
    }

    /// Looks a source name up; `None` is a defined "not found" result, and
    /// the caller decides whether that is fatal.
    pub fn get(&mut self, local: &str) -> (res: Option<String>)
        ensures
            final(self)@ == old(self)@,
            (res is Some) == (scope_lookup(old(self)@, local@) is Some),
            res matches Some(v) ==> scope_lookup(old(self)@, local@) == Some(v@),
    {
        let mut i: usize = self.entries.len();
        proof {
            assert(self@.subrange(0, i as int) =~= self@);
        }
        while i > 0
            invariant
                0 <= i <= self.entries.len(),
                self@.len() == self.entries.len(),
                scope_lookup(self@, local@) == scope_lookup(self@.subrange(0, i as int), local@),
            decreases i,
        {
            let ghost part = self@.subrange(0, i as int);
            if str_eq(self.entries[i - 1].0.as_str(), local) {
                proof {
                    assert(part.last() == self@[i - 1]);
                    assert(part.last().0 == local@);
                }
                return Some(self.entries[i - 1].1.clone());
            }
            proof {
                assert(part.last() == self@[i - 1]);
                assert(part.last().0 != local@);
                assert(part.drop_last() =~= self@.subrange(0, i - 1));
            }
            i -= 1;
        }
        proof {
            assert(self@.subrange(0, 0) =~= Seq::<(Seq<char>, Seq<char>)>::empty());
        }
        None
    }

    /// Forks an independent snapshot of this scope, so that registrations in
    /// the copy never become visible in the original.
    pub fn copy(&mut self) -> (s: Scope)
        ensures
            final(self)@ == old(self)@,
            s@ == old(self)@,
    {
        let mut v: Vec<(String, String)> = Vec::new();
        let mut i: usize = 0;
        while i < self.entries.len()
            invariant
                0 <= i <= self.entries.len(),
                v@.len() == i,
                forall|j: int| 0 <= j < i ==> v@[j] == self.entries@[j],
            decreases self.entries.len() - i,
        {
            let p0 = self.entries[i].0.clone();
            let p1 = self.entries[i].1.clone();
            v.push((p0, p1));
            i += 1;
        }
        let s = Scope { entries: v };
        proof {
            assert(v@ =~= self.entries@);
            assert(s@ =~= self@);
        }
        s
    }

    /// Binds a source name directly to a given target name (used for
    /// parameter registers); the target must not be in use yet.
    pub fn bind(&mut self, local: String, target: String)
        requires
            !has_target(old(self)@, target@),
        ensures
            final(self)@ == old(self)@.push((local@, target@)),
    {
        let ghost pre = self@;
        self.entries.push((local, target));
        proof {
            assert(self@ =~= pre.push((local@, target@)));
        }
    }
}

proof fn lemma_first_free_from_witness(s: ScopeModel, base: Seq<char>, k0: nat)
    requires
        !has_target(s, suffixed(base, k0)),
    ensures
        exists|k: nat| is_first_free(s, base, k),
    decreases k0,
{
    if forall|j: nat| j < k0 ==> has_target(s, #[trigger] suffixed(base, j)) {
        assert(is_first_free(s, base, k0));
    } else {
        let j = choose|j: nat| j < k0 && !has_target(s, #[trigger] suffixed(base, j));
        lemma_first_free_from_witness(s, base, j);
    }
}

/// Registration always settles on some suffix: the candidates with suffixes
/// `0 ..= s.len()` cannot all collide with the finitely many stored targets.
proof fn lemma_first_free_exists(s: ScopeModel, base: Seq<char>)
    ensures
        exists|k: nat| is_first_free(s, base, k),
{
    if forall|k: nat| k < s.len() + 1 ==> has_target(s, #[trigger] suffixed(base, k)) {
        lemma_tried_bound(s, base, (s.len() + 1) as nat);
        assert(false);
    } else {
        let k0 = choose|k: nat|
            k < s.len() + 1 && !has_target(s, #[trigger] suffixed(base, k));
        lemma_first_free_from_witness(s, base, k0);
    }
}

/// The target name a registration produces is fresh: it is not already in use
/// in the scope being registered into.
pub proof fn lemma_reg_target_fresh(s: ScopeModel, base: Seq<char>)
    ensures
        !has_target(s, reg_target(s, base)),
{
    lemma_first_free_exists(s, base);
    let k = choose|k: nat| is_first_free(s, base, k);
    assert(is_first_free(s, base, chosen_suffix(s, base)));
}

/// Scope uniqueness: a scope records every target name it has ever produced,
/// and registering one more name keeps all of them — the new one included —
/// pairwise distinct.  Together with `Scope::new` (the empty scope) this
/// covers every sequence of registrations into one scope lineage.
pub proof fn lemma_registration_keeps_targets_distinct(s: ScopeModel, name: Seq<char>)
    requires
        targets_distinct(s),
    ensures
        targets_distinct(reg_push(s, name)),
        !has_target(s, reg_target(s, safe_seq(name))),
{
    lemma_reg_target_fresh(s, safe_seq(name));
    let s2 = reg_push(s, name);
    assert forall|i: int, j: int| 0 <= i < j < s2.len() implies s2[i].1 != s2[j].1 by {
        if j == s2.len() - 1 {
            assert(s[i].1 != reg_target(s, safe_seq(name)));
        }
    }
}

} // verus!
