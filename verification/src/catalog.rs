//! The static data a search runs against: champions, trait definitions,
//! and the scoring configuration.

use vstd::prelude::*;

use crate::scoring::copy_keys;

verus! {

/// Why a catalog could not be built from its raw tables.
#[derive(Clone, Copy, PartialEq, Eq, Structural, Debug)]
pub enum LoadError {
    /// A table holds more entries than keys exist for.
    TooLarge,
    /// The coefficient denominator is zero, or the numerator too large.
    BadCoefficient,
    /// Champion keys are not exactly `1..=n` for `n` entries.
    BadChampionKey,
    /// Trait keys are not exactly `1..=m` for `m` entries.
    BadTraitKey,
    /// A champion carries a tag that names no trait, repeats a tag, or
    /// lists too many tags.
    BadTraitTag,
}

/// A selectable catalog entry: a display id, a tier weight, and the list of
/// trait tags it carries.  Tags are small integer keys into the catalog's
/// trait table.
pub struct Champion {
    pub id: String,
    pub tier: u8,
    pub traits: Vec<i8>,
}

/// A categorical synergy bucket: a display name and the minimum number of
/// distinct champions that must carry its tag before it becomes active.
pub struct Trait {
    pub name: String,
    pub min: i8,
}

/// Which of the two scoring policies a search uses.
#[derive(Clone, Copy, PartialEq, Eq, Structural)]
pub enum Mode {
    /// Greater fitness is better; active traits are rewarded.
    Maximize,
    /// Lower fitness is better; duplicate slots and active traits are
    /// penalty points.
    MinimizePenalty,
}

/// The read-only data of one search: a dense champion pool (the champion
/// with key `k` sits at index `k - 1`), a dense trait table (the trait with
/// tag `t` sits at index `t - 1`), and the scoring configuration.
///
/// The tier-bonus coefficient is a rational number `coef_num / coef_den`.
pub struct Game {
    pub pool: Vec<Champion>,
    pub traits: Vec<Trait>,
    pub high_tier: bool,
    pub mode: Mode,
    pub coef_num: u32,
    pub coef_den: u32,
}

/// Largest admissible tier-bonus coefficient numerator; keeps every fitness
/// value comfortably inside `i32`.
pub const COEF_NUM_MAX: u32 = 1000000;

/// Largest admissible pool or trait-table size; keys and tags are `i8`
/// values from 1 upward, so a dense table cannot exceed this.
pub const TABLE_MAX: usize = 127;

impl Champion {
    /// A champion is well formed against a trait table of `traits_len`
    /// entries when every tag it carries names an existing trait and no tag
    /// is listed twice: duplicates within one champion never count twice.
    pub open spec fn wf(self, traits_len: int) -> bool {
        &&& self.traits@.len() <= TABLE_MAX
        &&& forall|j: int|
            0 <= j < self.traits@.len() ==> 1 <= #[trigger] self.traits@[j] <= traits_len
        &&& forall|j1: int, j2: int|
            0 <= j1 < j2 < self.traits@.len() ==> self.traits@[j1] != self.traits@[j2]
    }
}

/// The two champions hold the same data.
pub open spec fn champ_eqv(a: Champion, b: Champion) -> bool {
    &&& a.id@ == b.id@
    &&& a.tier == b.tier
    &&& a.traits@ == b.traits@
}

/// The two trait definitions hold the same data.
pub open spec fn trait_eqv(a: Trait, b: Trait) -> bool {
    &&& a.name@ == b.name@
    &&& a.min == b.min
}

/// How many entries of a keyed table carry the key `k`.
pub open spec fn key_count<T>(s: Seq<(i8, T)>, k: i8) -> int
    decreases s.len(),
{
    if s.len() == 0 {
        0
    } else {
        key_count(s.drop_last(), k) + if s.last().0 == k {
            1int
        } else {
            0int
        }
    }
}

/// A keyed table is dense: every entry's key is in `1..=len`, and every
/// key in `1..=len` appears exactly once.
pub open spec fn keys_ok<T>(s: Seq<(i8, T)>) -> bool {
    &&& forall|i: int| 0 <= i < s.len() ==> 1 <= (#[trigger] s[i]).0 <= s.len()
    &&& forall|k: int| 1 <= k <= s.len() ==> #[trigger] key_count(s, k as i8) == 1
}

/// Every champion entry is well formed against a trait table of
/// `traits_len` entries.
pub open spec fn champs_wf(s: Seq<(i8, Champion)>, traits_len: int) -> bool {
    forall|i: int| 0 <= i < s.len() ==> (#[trigger] s[i]).1.wf(traits_len)
}

/// The raw tables and configuration make a well-formed catalog.
pub open spec fn load_ok(
    champs: Seq<(i8, Champion)>,
    traits: Seq<(i8, Trait)>,
    coef_num: u32,
    coef_den: u32,
) -> bool {
    &&& champs.len() <= TABLE_MAX
    &&& traits.len() <= TABLE_MAX
    &&& coef_den >= 1
    &&& coef_num <= COEF_NUM_MAX
    &&& keys_ok(champs)
    &&& keys_ok(traits)
    &&& champs_wf(champs, traits.len() as int)
}

/// A key count is never negative.
proof fn lemma_key_count_nonneg<T>(s: Seq<(i8, T)>, k: i8)
    ensures
        key_count(s, k) >= 0,
    decreases s.len(),
{
    if s.len() > 0 {
        lemma_key_count_nonneg(s.drop_last(), k);
    }
}

/// An entry with key `k` forces a positive key count.
proof fn lemma_key_count_at_least_one<T>(s: Seq<(i8, T)>, k: i8, i: int)
    requires
        0 <= i < s.len(),
        s[i].0 == k,
    ensures
        key_count(s, k) >= 1,
    decreases s.len(),
{
    lemma_key_count_nonneg(s.drop_last(), k);
    if i < s.len() - 1 {
        lemma_key_count_at_least_one(s.drop_last(), k, i);
    }
}

/// Two entries with the same key force a key count of at least two.
proof fn lemma_key_count_at_least_two<T>(s: Seq<(i8, T)>, k: i8, i1: int, i2: int)
    requires
        0 <= i1 < i2 < s.len(),
        s[i1].0 == k,
        s[i2].0 == k,
    ensures
        key_count(s, k) >= 2,
    decreases s.len(),
{
    if i2 < s.len() - 1 {
        lemma_key_count_at_least_two(s.drop_last(), k, i1, i2);
        lemma_key_count_nonneg(s.drop_last(), k);
    } else {
        lemma_key_count_at_least_one(s.drop_last(), k, i1);
    }
}

/// A key with a positive count appears at some entry.
proof fn lemma_key_count_witness<T>(s: Seq<(i8, T)>, k: i8)
    requires
        key_count(s, k) >= 1,
    ensures
        exists|i: int| 0 <= i < s.len() && s[i].0 == k,
    decreases s.len(),
{
    lemma_key_count_nonneg(s.drop_last(), k);
    if s.last().0 == k {
        assert(s[s.len() - 1].0 == k);
    } else {
        lemma_key_count_witness(s.drop_last(), k);
        let i = choose|i: int| 0 <= i < s.drop_last().len() && s.drop_last()[i].0 == k;
        assert(s[i].0 == k);
    }
}

/// A copy of a champion, field for field.
fn clone_champion(c: &Champion) -> (r: Champion)
    ensures
        champ_eqv(r, *c),
{
    Champion { id: c.id.clone(), tier: c.tier, traits: copy_keys(&c.traits) }
}

/// A copy of a trait definition, field for field.
fn clone_trait_def(t: &Trait) -> (r: Trait)
    ensures
        trait_eqv(r, *t),
{
    Trait { name: t.name.clone(), min: t.min }
}

/// Check that the champion table's keys are dense and, if so, arrange the
/// champions into key order (key `k` at index `k - 1`).
fn arrange_champions(champs: &Vec<(i8, Champion)>) -> (r: Option<Vec<Champion>>)
    requires
        champs@.len() <= TABLE_MAX,
    ensures
        r is Some <==> keys_ok(champs@),
        r matches Some(pool) ==> {
            &&& pool@.len() == champs@.len()
            &&& forall|i: int|
                0 <= i < champs@.len() ==> champ_eqv(
                    pool@[(#[trigger] champs@[i]).0 as int - 1],
                    champs@[i].1,
                )
        },
{
    let n = champs.len();
    let mut i: usize = 0;
    while i < n
        invariant
            n == champs@.len(),
            i <= n,
            forall|q: int| 0 <= q < i ==> 1 <= (#[trigger] champs@[q]).0 <= n,
        decreases n - i,
    {
        let key = champs[i].0;
        if key < 1 || (key as usize) > n {
            return None;
        }
        i += 1;
    }
    let mut pool: Vec<Champion> = Vec::new();
    let mut k: usize = 1;
    while k <= n
        invariant
            n == champs@.len(),
            n <= TABLE_MAX,
            1 <= k <= n + 1,
            pool@.len() == k - 1,
            forall|q: int| 0 <= q < n ==> 1 <= (#[trigger] champs@[q]).0 <= n,
            forall|kk: int| 1 <= kk < k ==> #[trigger] key_count(champs@, kk as i8) == 1,
            forall|i2: int, kk: int|
                1 <= kk < k && 0 <= i2 < n && (#[trigger] champs@[i2]).0 == kk as i8
                    ==> champ_eqv(#[trigger] pool@[kk - 1], champs@[i2].1),
        decreases n + 1 - k,
    {
        let mut cnt: usize = 0;
        let mut found: usize = 0;
        let mut i2: usize = 0;
        while i2 < n
            invariant
                n == champs@.len(),
                1 <= k <= n,
                i2 <= n,
                cnt <= i2,
                cnt as int == key_count(champs@.take(i2 as int), k as i8),
                cnt >= 1 ==> (found < i2 && champs@[found as int].0 == k as i8),
            decreases n - i2,
        {
            let ghost pre = champs@.take(i2 as int);
            proof {
                assert(champs@.take(i2 as int + 1) =~= pre.push(champs@[i2 as int]));
                assert(pre.push(champs@[i2 as int]).drop_last() =~= pre);
            }
            if champs[i2].0 == k as i8 {
                cnt += 1;
                found = i2;
            }
            i2 += 1;
        }
        proof {
            assert(champs@.take(n as int) =~= champs@);
        }
        if cnt != 1 {
            proof {
                if cnt == 0 {
                    assert(key_count(champs@, k as i8) == 0);
                }
                assert(!(key_count(champs@, k as i8) == 1));
            }
            return None;
        }
        let c = clone_champion(&champs[found].1);
        pool.push(c);
        proof {
            assert(champ_eqv(pool@[k as int - 1], champs@[found as int].1));
            assert forall|q: int|
                0 <= q < n && (#[trigger] champs@[q]).0 == k as i8 implies champ_eqv(
                pool@[k as int - 1],
                champs@[q].1,
            ) by {
                if q != found as int {
                    if q < found as int {
                        lemma_key_count_at_least_two(champs@, k as i8, q, found as int);
                    } else {
                        lemma_key_count_at_least_two(champs@, k as i8, found as int, q);
                    }
                }
            }
        }
        k += 1;
    }
    proof {
        assert forall|i: int| 0 <= i < n implies champ_eqv(
            pool@[(#[trigger] champs@[i]).0 as int - 1],
            champs@[i].1,
        ) by {
            let kk = champs@[i].0 as int;
            assert(1 <= kk <= n);
            assert(champs@[i].0 == kk as i8);
        }
    }
    Some(pool)
}

/// Check that the trait table's keys are dense and, if so, arrange the
/// trait definitions into tag order (tag `t` at index `t - 1`).
fn arrange_traits(traits: &Vec<(i8, Trait)>) -> (r: Option<Vec<Trait>>)
    requires
        traits@.len() <= TABLE_MAX,
    ensures
        r is Some <==> keys_ok(traits@),
        r matches Some(table) ==> {
            &&& table@.len() == traits@.len()
            &&& forall|i: int|
                0 <= i < traits@.len() ==> trait_eqv(
                    table@[(#[trigger] traits@[i]).0 as int - 1],
                    traits@[i].1,
                )
        },
{
    let n = traits.len();
    let mut i: usize = 0;
    while i < n
        invariant
            n == traits@.len(),
            i <= n,
            forall|q: int| 0 <= q < i ==> 1 <= (#[trigger] traits@[q]).0 <= n,
        decreases n - i,
    {
        let key = traits[i].0;
        if key < 1 || (key as usize) > n {
            return None;
        }
        i += 1;
    }
    let mut table: Vec<Trait> = Vec::new();
    let mut k: usize = 1;
    while k <= n
        invariant
            n == traits@.len(),
            n <= TABLE_MAX,
            1 <= k <= n + 1,
            table@.len() == k - 1,
            forall|q: int| 0 <= q < n ==> 1 <= (#[trigger] traits@[q]).0 <= n,
            forall|kk: int| 1 <= kk < k ==> #[trigger] key_count(traits@, kk as i8) == 1,
            forall|i2: int, kk: int|
                1 <= kk < k && 0 <= i2 < n && (#[trigger] traits@[i2]).0 == kk as i8
                    ==> trait_eqv(#[trigger] table@[kk - 1], traits@[i2].1),
        decreases n + 1 - k,
    {
        let mut cnt: usize = 0;
        let mut found: usize = 0;
        let mut i2: usize = 0;
        while i2 < n
            invariant
                n == traits@.len(),
                1 <= k <= n,
                i2 <= n,
                cnt <= i2,
                cnt as int == key_count(traits@.take(i2 as int), k as i8),
                cnt >= 1 ==> (found < i2 && traits@[found as int].0 == k as i8),
            decreases n - i2,
        {
            let ghost pre = traits@.take(i2 as int);
            proof {
                assert(traits@.take(i2 as int + 1) =~= pre.push(traits@[i2 as int]));
                assert(pre.push(traits@[i2 as int]).drop_last() =~= pre);
            }
            if traits[i2].0 == k as i8 {
                cnt += 1;
                found = i2;
            }
            i2 += 1;
        }
        proof {
            assert(traits@.take(n as int) =~= traits@);
        }
        if cnt != 1 {
            proof {
                if cnt == 0 {
                    assert(key_count(traits@, k as i8) == 0);
                }
            }
            return None;
        }
        let t = clone_trait_def(&traits[found].1);
        table.push(t);
        proof {
            assert(trait_eqv(table@[k as int - 1], traits@[found as int].1));
            assert forall|q: int|
                0 <= q < n && (#[trigger] traits@[q]).0 == k as i8 implies trait_eqv(
                table@[k as int - 1],
                traits@[q].1,
            ) by {
                if q != found as int {
                    if q < found as int {
                        lemma_key_count_at_least_two(traits@, k as i8, q, found as int);
                    } else {
                        lemma_key_count_at_least_two(traits@, k as i8, found as int, q);
                    }
                }
            }
        }
        k += 1;
    }
    proof {
        assert forall|i: int| 0 <= i < n implies trait_eqv(
            table@[(#[trigger] traits@[i]).0 as int - 1],
            traits@[i].1,
        ) by {
            let kk = traits@[i].0 as int;
            assert(1 <= kk <= n);
            assert(traits@[i].0 == kk as i8);
        }
    }
    Some(table)
}

/// Check that every champion's tag list is well formed against a trait
/// table of `m` entries.
fn check_tags(champs: &Vec<(i8, Champion)>, m: usize) -> (ok: bool)
    ensures
        ok <==> champs_wf(champs@, m as int),
{
    let n = champs.len();
    let mut ci: usize = 0;
    while ci < n
        invariant
            n == champs@.len(),
            ci <= n,
            forall|q: int| 0 <= q < ci ==> (#[trigger] champs@[q]).1.wf(m as int),
        decreases n - ci,
    {
        let tr_len = champs[ci].1.traits.len();
        if tr_len > TABLE_MAX {
            return false;
        }
        let mut j: usize = 0;
        while j < tr_len
            invariant
                n == champs@.len(),
                ci < n,
                tr_len == champs@[ci as int].1.traits@.len(),
                j <= tr_len,
                forall|q: int|
                    0 <= q < j ==> 1 <= #[trigger] champs@[ci as int].1.traits@[q] <= m,
                forall|q1: int, q2: int|
                    0 <= q1 < q2 < j ==> champs@[ci as int].1.traits@[q1] != champs@[ci
                        as int].1.traits@[q2],
            decreases tr_len - j,
        {
            let tag = champs[ci].1.traits[j];
            if tag < 1 || (tag as usize) > m {
                return false;
            }
            let mut j2: usize = 0;
            while j2 < j
                invariant
                    n == champs@.len(),
                    ci < n,
                    j < tr_len == champs@[ci as int].1.traits@.len(),
                    j2 <= j,
                    tag == champs@[ci as int].1.traits@[j as int],
                    forall|q: int|
                        0 <= q < j2 ==> champs@[ci as int].1.traits@[q] != tag,
                decreases j - j2,
        {
                if champs[ci].1.traits[j2] == tag {
                    return false;
                }
                j2 += 1;
            }
            j += 1;
        }
        ci += 1;
    }
    true
}

impl Game {
    /// Catalog well-formedness: dense tables of bounded size, a positive
    /// coefficient denominator, a bounded numerator, and well-formed
    /// champions.  Every engine function assumes and preserves this.
    pub open spec fn wf(self) -> bool {
        &&& self.pool@.len() <= TABLE_MAX
        &&& self.traits@.len() <= TABLE_MAX
        &&& self.coef_den >= 1
        &&& self.coef_num <= COEF_NUM_MAX
        &&& forall|k: int|
            0 <= k < self.pool@.len() ==> (#[trigger] self.pool@[k]).wf(self.traits@.len() as int)
    }

    /// An empty catalog with the default configuration.
    pub fn new() -> (r: Game)
        ensures
            r.wf(),
            r.pool@.len() == 0,
            r.traits@.len() == 0,
            !r.high_tier,
            r.mode == Mode::Maximize,
            r.coef_num == 1,
            r.coef_den == 1,
    {
        Game {
            pool: Vec::new(),
            traits: Vec::new(),
            high_tier: false,
            mode: Mode::Maximize,
            coef_num: 1,
            coef_den: 1,
        }
    }

    /// Build a catalog from raw keyed tables, validating everything the
    /// engine later relies on: succeeds exactly when the tables and the
    /// coefficient satisfy [`load_ok`], and each failure names the first
    /// violated condition (sizes, then coefficient, then champion keys,
    /// then trait keys, then tags).
    pub fn load(
        champions: Vec<(i8, Champion)>,
        traitdefs: Vec<(i8, Trait)>,
        high_tier: bool,
        mode: Mode,
        coef_num: u32,
        coef_den: u32,
    ) -> (r: Result<Game, LoadError>)
        ensures
            r is Ok <==> load_ok(champions@, traitdefs@, coef_num, coef_den),
            r == Err::<Game, LoadError>(LoadError::TooLarge) <==> (champions@.len() > TABLE_MAX
                || traitdefs@.len() > TABLE_MAX),
            r == Err::<Game, LoadError>(LoadError::BadCoefficient) <==> (champions@.len()
                <= TABLE_MAX && traitdefs@.len() <= TABLE_MAX && (coef_den == 0 || coef_num
                > COEF_NUM_MAX)),
            r == Err::<Game, LoadError>(LoadError::BadChampionKey) <==> (champions@.len()
                <= TABLE_MAX && traitdefs@.len() <= TABLE_MAX && coef_den >= 1 && coef_num
                <= COEF_NUM_MAX && !keys_ok(champions@)),
            r == Err::<Game, LoadError>(LoadError::BadTraitKey) <==> (champions@.len()
                <= TABLE_MAX && traitdefs@.len() <= TABLE_MAX && coef_den >= 1 && coef_num
                <= COEF_NUM_MAX && keys_ok(champions@) && !keys_ok(traitdefs@)),
            r == Err::<Game, LoadError>(LoadError::BadTraitTag) <==> (champions@.len()
                <= TABLE_MAX && traitdefs@.len() <= TABLE_MAX && coef_den >= 1 && coef_num
                <= COEF_NUM_MAX && keys_ok(champions@) && keys_ok(traitdefs@) && !champs_wf(
                champions@,
                traitdefs@.len() as int,
            )),
            r matches Ok(g) ==> {
                &&& g.wf()
                &&& g.high_tier == high_tier
                &&& g.mode == mode
                &&& g.coef_num == coef_num
                &&& g.coef_den == coef_den
                &&& g.pool@.len() == champions@.len()
                &&& g.traits@.len() == traitdefs@.len()
                &&& forall|i: int|
                    0 <= i < champions@.len() ==> champ_eqv(
                        g.pool@[(#[trigger] champions@[i]).0 as int - 1],
                        champions@[i].1,
                    )
                &&& forall|i: int|
                    0 <= i < traitdefs@.len() ==> trait_eqv(
                        g.traits@[(#[trigger] traitdefs@[i]).0 as int - 1],
                        traitdefs@[i].1,
                    )
            },
    {
        if champions.len() > TABLE_MAX || traitdefs.len() > TABLE_MAX {
            return Err(LoadError::TooLarge);
        }
        if coef_den == 0 || coef_num > COEF_NUM_MAX {
            return Err(LoadError::BadCoefficient);
        }
        let pool = match arrange_champions(&champions) {
            Some(pool) => pool,
            None => {
                return Err(LoadError::BadChampionKey);
            },
        };
        let table = match arrange_traits(&traitdefs) {
            Some(table) => table,
            None => {
                return Err(LoadError::BadTraitKey);
            },
        };
        if !check_tags(&champions, traitdefs.len()) {
            return Err(LoadError::BadTraitTag);
        }
        let g = Game { pool, traits: table, high_tier, mode, coef_num, coef_den };
        proof {
            assert forall|kk: int| 0 <= kk < g.pool@.len() implies (#[trigger] g.pool@[kk]).wf(
                g.traits@.len() as int,
            ) by {
                assert(key_count(champions@, (kk + 1) as i8) == 1);
                lemma_key_count_witness(champions@, (kk + 1) as i8);
                let w = choose|w: int| 0 <= w < champions@.len() && champions@[w].0 == (kk
                    + 1) as i8;
                assert(champ_eqv(g.pool@[champions@[w].0 as int - 1], champions@[w].1));
                assert(champ_eqv(g.pool@[kk], champions@[w].1));
                assert(champions@[w].1.wf(traitdefs@.len() as int));
                assert(g.pool@[kk].traits@ == champions@[w].1.traits@);
            }
        }
        Ok(g)
    }
}

} // verus!
