//! An explicit model of the host ledger: asset registry, token accounts and
//! offer records, with the invariants the protocols maintain.
//!
//! The stores are association lists keyed by content: a token account by its
//! (owner, mint) pair, an offer record by its (maker, id) pair — the
//! composite key that replaces a registry, so a record is located from its
//! inputs alone. Spec-level `Map` views abstract the lists, and the protocol
//! contracts are stated over those views.

use vstd::prelude::*;
use vstd::map::*;
use crate::address::Address;
use crate::address::spec_offer_address;
use crate::address::spec_canonical_nonce;
use crate::state::Offer;
use crate::error::ErrorCode;

verus! {

/// A holding account for one asset: `balance` units of `mint`, debitable
/// only by `owner` (for a derived owner: only by protocol logic that
/// re-derives the owning address).
#[derive(Clone, Copy, Debug)]
pub struct TokenAccount {
    pub owner: Address,
    pub mint: u64,
    pub balance: u64,
}

/// A registered asset: its identifier and its registered decimal precision,
/// against which every transfer's declared precision is checked.
#[derive(Clone, Copy, Debug)]
pub struct MintInfo {
    pub mint: u64,
    pub decimals: u8,
}

/// The modelled ledger: one program namespace, the asset registry, all
/// token accounts, and all outstanding offer records.
pub struct Ledger {
    /// The program namespace every record address is derived under; explicit
    /// configuration, so several namespaces can coexist in one process.
    pub namespace: u64,
    pub mints: Vec<MintInfo>,
    pub accounts: Vec<TokenAccount>,
    pub records: Vec<Offer>,
}

/// The index of the first token account with the given (owner, mint) key.
pub open spec fn acc_find(s: Seq<TokenAccount>, owner: Address, mint: u64) -> Option<int>
    decreases s.len(),
{
    if s.len() == 0 {
        None
    } else if s[0].owner == owner && s[0].mint == mint {
        Some(0int)
    } else {
        match acc_find(s.drop_first(), owner, mint) {
            Some(i) => Some(i + 1),
            None => None,
        }
    }
}

/// The index of the first offer record with the given (maker, id) key.
pub open spec fn rec_find(s: Seq<Offer>, maker: u64, id: u64) -> Option<int>
    decreases s.len(),
{
    if s.len() == 0 {
        None
    } else if s[0].maker == maker && s[0].id == id {
        Some(0int)
    } else {
        match rec_find(s.drop_first(), maker, id) {
            Some(i) => Some(i + 1),
            None => None,
        }
    }
}

/// The index of the first registry entry for the given mint.
pub open spec fn mint_find(s: Seq<MintInfo>, mint: u64) -> Option<int>
    decreases s.len(),
{
    if s.len() == 0 {
        None
    } else if s[0].mint == mint {
        Some(0int)
    } else {
        match mint_find(s.drop_first(), mint) {
            Some(i) => Some(i + 1),
            None => None,
        }
    }
}

/// No two token accounts share an (owner, mint) key.
pub open spec fn acc_keys_unique(s: Seq<TokenAccount>) -> bool {
    forall|i: int, j: int|
        #![trigger s[i], s[j]]
        0 <= i < j < s.len() ==> !(s[i].owner == s[j].owner && s[i].mint == s[j].mint)
}

/// No two offer records share a (maker, id) key.
pub open spec fn rec_keys_unique(s: Seq<Offer>) -> bool {
    forall|i: int, j: int|
        #![trigger s[i], s[j]]
        0 <= i < j < s.len() ==> !(s[i].maker == s[j].maker && s[i].id == s[j].id)
}

/// No two registry entries describe the same mint.
pub open spec fn mint_keys_unique(s: Seq<MintInfo>) -> bool {
    forall|i: int, j: int|
        #![trigger s[i], s[j]]
        0 <= i < j < s.len() ==> s[i].mint != s[j].mint
}

/// The balances held on the ledger, as a map from (owner, mint) to the
/// account's balance; the domain is exactly the set of existing accounts.
pub open spec fn accounts_map(s: Seq<TokenAccount>) -> Map<(Address, u64), u64> {
    Map::new(
        |k: (Address, u64)| acc_find(s, k.0, k.1) is Some,
        |k: (Address, u64)| s[acc_find(s, k.0, k.1).unwrap()].balance,
    )
}

/// The outstanding offers, as a map from (maker, id) to the stored record;
/// the domain is exactly the set of existing records.
pub open spec fn records_map(s: Seq<Offer>) -> Map<(u64, u64), Offer> {
    Map::new(
        |k: (u64, u64)| rec_find(s, k.0, k.1) is Some,
        |k: (u64, u64)| s[rec_find(s, k.0, k.1).unwrap()],
    )
}

/// The registered decimal precision of `mint`, if the mint is registered.
pub open spec fn mint_decimals(s: Seq<MintInfo>, mint: u64) -> Option<u8> {
    match mint_find(s, mint) {
        Some(i) => Some(s[i].decimals),
        None => None,
    }
}

pub proof fn lemma_acc_find_props(s: Seq<TokenAccount>, owner: Address, mint: u64)
    ensures
        acc_find(s, owner, mint) is Some ==> {
            let i = acc_find(s, owner, mint).unwrap();
            0 <= i < s.len() && s[i].owner == owner && s[i].mint == mint
        },
        acc_find(s, owner, mint) is None ==> forall|j: int|
            0 <= j < s.len() ==> !(s[j].owner == owner && s[j].mint == mint),
    decreases s.len(),
{
    if s.len() == 0 {
    } else if s[0].owner == owner && s[0].mint == mint {
    } else {
        lemma_acc_find_props(s.drop_first(), owner, mint);
        if acc_find(s, owner, mint) is None {
            assert forall|j: int| 0 <= j < s.len() implies !(s[j].owner == owner
                && s[j].mint == mint) by {
                if j > 0 {
                    assert(s.drop_first()[j - 1] == s[j]);
                }
            }
        }
    }
}

pub proof fn lemma_rec_find_props(s: Seq<Offer>, maker: u64, id: u64)
    ensures
        rec_find(s, maker, id) is Some ==> {
            let i = rec_find(s, maker, id).unwrap();
            0 <= i < s.len() && s[i].maker == maker && s[i].id == id
        },
        rec_find(s, maker, id) is None ==> forall|j: int|
            0 <= j < s.len() ==> !(s[j].maker == maker && s[j].id == id),
    decreases s.len(),
{
    if s.len() == 0 {
    } else if s[0].maker == maker && s[0].id == id {
    } else {
        lemma_rec_find_props(s.drop_first(), maker, id);
        if rec_find(s, maker, id) is None {
            assert forall|j: int| 0 <= j < s.len() implies !(s[j].maker == maker
                && s[j].id == id) by {
                if j > 0 {
                    assert(s.drop_first()[j - 1] == s[j]);
                }
            }
        }
    }
}

pub proof fn lemma_mint_find_props(s: Seq<MintInfo>, mint: u64)
    ensures
        mint_find(s, mint) is Some ==> {
            let i = mint_find(s, mint).unwrap();
            0 <= i < s.len() && s[i].mint == mint
        },
        mint_find(s, mint) is None ==> forall|j: int| 0 <= j < s.len() ==> s[j].mint != mint,
    decreases s.len(),
{
    if s.len() == 0 {
    } else if s[0].mint == mint {
    } else {
        lemma_mint_find_props(s.drop_first(), mint);
        if mint_find(s, mint) is None {
            assert forall|j: int| 0 <= j < s.len() implies s[j].mint != mint by {
                if j > 0 {
                    assert(s.drop_first()[j - 1] == s[j]);
                }
            }
        }
    }
}

pub proof fn lemma_acc_find_exact(s: Seq<TokenAccount>, owner: Address, mint: u64, i: int)
    requires
        0 <= i < s.len(),
        s[i].owner == owner,
        s[i].mint == mint,
        forall|j: int| 0 <= j < i ==> !(s[j].owner == owner && s[j].mint == mint),
    ensures
        acc_find(s, owner, mint) == Some(i),
    decreases s.len(),
{
    if i == 0 {
    } else {
        assert forall|j: int| 0 <= j < i - 1 implies !(s.drop_first()[j].owner == owner
            && s.drop_first()[j].mint == mint) by {
            assert(s.drop_first()[j] == s[j + 1]);
        }
        assert(s.drop_first()[i - 1] == s[i]);
        lemma_acc_find_exact(s.drop_first(), owner, mint, i - 1);
    }
}

pub proof fn lemma_rec_find_exact(s: Seq<Offer>, maker: u64, id: u64, i: int)
    requires
        0 <= i < s.len(),
        s[i].maker == maker,
        s[i].id == id,
        forall|j: int| 0 <= j < i ==> !(s[j].maker == maker && s[j].id == id),
    ensures
        rec_find(s, maker, id) == Some(i),
    decreases s.len(),
{
    if i == 0 {
    } else {
        assert forall|j: int| 0 <= j < i - 1 implies !(s.drop_first()[j].maker == maker
            && s.drop_first()[j].id == id) by {
            assert(s.drop_first()[j] == s[j + 1]);
        }
        assert(s.drop_first()[i - 1] == s[i]);
        lemma_rec_find_exact(s.drop_first(), maker, id, i - 1);
    }
}

pub proof fn lemma_mint_find_exact(s: Seq<MintInfo>, mint: u64, i: int)
    requires
        0 <= i < s.len(),
        s[i].mint == mint,
        forall|j: int| 0 <= j < i ==> s[j].mint != mint,
    ensures
        mint_find(s, mint) == Some(i),
    decreases s.len(),
{
    if i == 0 {
    } else {
        assert forall|j: int| 0 <= j < i - 1 implies s.drop_first()[j].mint != mint by {
            assert(s.drop_first()[j] == s[j + 1]);
        }
        assert(s.drop_first()[i - 1] == s[i]);
        lemma_mint_find_exact(s.drop_first(), mint, i - 1);
    }
}

pub proof fn lemma_acc_find_push(s: Seq<TokenAccount>, x: TokenAccount, owner: Address, mint: u64)
    ensures
        acc_find(s.push(x), owner, mint) == (if acc_find(s, owner, mint) is Some {
            acc_find(s, owner, mint)
        } else if x.owner == owner && x.mint == mint {
            Some(s.len() as int)
        } else {
            None::<int>
        }),
    decreases s.len(),
{
    if s.len() == 0 {
        assert(s.push(x)[0] == x);
        assert(s.push(x).drop_first() =~= Seq::<TokenAccount>::empty());
        assert(acc_find(s.push(x).drop_first(), owner, mint) is None);
    } else {
        assert(s.push(x)[0] == s[0]);
        if s[0].owner == owner && s[0].mint == mint {
        } else {
            assert(s.push(x).drop_first() =~= s.drop_first().push(x));
            lemma_acc_find_push(s.drop_first(), x, owner, mint);
            assert(acc_find(s.push(x), owner, mint) == (match acc_find(
                s.drop_first().push(x),
                owner,
                mint,
            ) {
                Some(i) => Some(i + 1),
                None => None,
            }));
        }
    }
}

pub proof fn lemma_rec_find_push(s: Seq<Offer>, x: Offer, maker: u64, id: u64)
    ensures
        rec_find(s.push(x), maker, id) == (if rec_find(s, maker, id) is Some {
            rec_find(s, maker, id)
        } else if x.maker == maker && x.id == id {
            Some(s.len() as int)
        } else {
            None::<int>
        }),
    decreases s.len(),
{
    if s.len() == 0 {
        assert(s.push(x)[0] == x);
        assert(s.push(x).drop_first() =~= Seq::<Offer>::empty());
        assert(rec_find(s.push(x).drop_first(), maker, id) is None);
    } else {
        assert(s.push(x)[0] == s[0]);
        if s[0].maker == maker && s[0].id == id {
        } else {
            assert(s.push(x).drop_first() =~= s.drop_first().push(x));
            lemma_rec_find_push(s.drop_first(), x, maker, id);
            assert(rec_find(s.push(x), maker, id) == (match rec_find(
                s.drop_first().push(x),
                maker,
                id,
            ) {
                Some(i) => Some(i + 1),
                None => None,
            }));
        }
    }
}

pub proof fn lemma_mint_find_push(s: Seq<MintInfo>, x: MintInfo, mint: u64)
    ensures
        mint_find(s.push(x), mint) == (if mint_find(s, mint) is Some {
            mint_find(s, mint)
        } else if x.mint == mint {
            Some(s.len() as int)
        } else {
            None::<int>
        }),
    decreases s.len(),
{
    if s.len() == 0 {
        assert(s.push(x)[0] == x);
        assert(s.push(x).drop_first() =~= Seq::<MintInfo>::empty());
        assert(mint_find(s.push(x).drop_first(), mint) is None);
    } else {
        assert(s.push(x)[0] == s[0]);
        if s[0].mint == mint {
        } else {
            assert(s.push(x).drop_first() =~= s.drop_first().push(x));
            lemma_mint_find_push(s.drop_first(), x, mint);
            assert(mint_find(s.push(x), mint) == (match mint_find(s.drop_first().push(x), mint) {
                Some(i) => Some(i + 1),
                None => None,
            }));
        }
    }
}

pub proof fn lemma_acc_find_update(
    s: Seq<TokenAccount>,
    i: int,
    x: TokenAccount,
    owner: Address,
    mint: u64,
)
    requires
        0 <= i < s.len(),
        x.owner == s[i].owner,
        x.mint == s[i].mint,
    ensures
        acc_find(s.update(i, x), owner, mint) == acc_find(s, owner, mint),
    decreases s.len(),
{
    let u = s.update(i, x);
    if i == 0 {
        assert(u[0] == x);
        if !(x.owner == owner && x.mint == mint) {
            assert(u.drop_first() =~= s.drop_first());
        }
    } else {
        assert(u[0] == s[0]);
        if !(s[0].owner == owner && s[0].mint == mint) {
            assert(u.drop_first() =~= s.drop_first().update(i - 1, x));
            assert(s.drop_first()[i - 1] == s[i]);
            lemma_acc_find_update(s.drop_first(), i - 1, x, owner, mint);
        }
    }
}

pub proof fn lemma_acc_find_remove(s: Seq<TokenAccount>, i: int, owner: Address, mint: u64)
    requires
        0 <= i < s.len(),
        acc_keys_unique(s),
    ensures
        s[i].owner == owner && s[i].mint == mint ==> acc_find(s.remove(i), owner, mint) is None,
        !(s[i].owner == owner && s[i].mint == mint) ==> match acc_find(s, owner, mint) {
            Some(j) => acc_find(s.remove(i), owner, mint) is Some && s.remove(i)[acc_find(
                s.remove(i),
                owner,
                mint,
            ).unwrap()] == s[j],
            None => acc_find(s.remove(i), owner, mint) is None,
        },
    decreases s.len(),
{
    let r = s.remove(i);
    s.remove_ensures(i);
    if i == 0 {
        assert(r =~= s.drop_first());
        if s[0].owner == owner && s[0].mint == mint {
            lemma_acc_find_props(r, owner, mint);
            if acc_find(r, owner, mint) is Some {
                let t = acc_find(r, owner, mint).unwrap();
                assert(r[t] == s[t + 1]);
                assert(!(s[0].owner == s[t + 1].owner && s[0].mint == s[t + 1].mint));
                assert(false);
            }
        } else {
            assert(acc_find(s, owner, mint) == (match acc_find(s.drop_first(), owner, mint) {
                Some(t) => Some(t + 1),
                None => None,
            }));
            if acc_find(s, owner, mint) is Some {
                lemma_acc_find_props(s.drop_first(), owner, mint);
                let j = acc_find(s, owner, mint).unwrap();
                let t = acc_find(s.drop_first(), owner, mint).unwrap();
                assert(j == t + 1);
                assert(r[t] == s[t + 1]);
            }
        }
    } else {
        assert(r[0] == s[0]);
        let d = s.drop_first();
        assert forall|a: int, b: int|
            #![trigger d[a], d[b]]
            0 <= a < b < d.len() implies !(d[a].owner == d[b].owner && d[a].mint == d[b].mint) by {
            assert(d[a] == s[a + 1]);
            assert(d[b] == s[b + 1]);
            assert(!(s[a + 1].owner == s[b + 1].owner && s[a + 1].mint == s[b + 1].mint));
        }
        d.remove_ensures(i - 1);
        let rd = d.remove(i - 1);
        assert(r.drop_first() =~= rd);
        assert(d[i - 1] == s[i]);
        lemma_acc_find_remove(d, i - 1, owner, mint);
        if s[0].owner == owner && s[0].mint == mint {
            assert(!(s[i].owner == s[0].owner && s[i].mint == s[0].mint));
            assert(acc_find(s, owner, mint) == Some(0int));
            assert(acc_find(r, owner, mint) == Some(0int));
        } else {
            assert(acc_find(s, owner, mint) == (match acc_find(d, owner, mint) {
                Some(t) => Some(t + 1),
                None => None,
            }));
            assert(acc_find(r, owner, mint) == (match acc_find(rd, owner, mint) {
                Some(t) => Some(t + 1),
                None => None,
            }));
            if s[i].owner == owner && s[i].mint == mint {
                assert(acc_find(rd, owner, mint) is None);
                assert(acc_find(r, owner, mint) is None);
            } else {
                match acc_find(s, owner, mint) {
                    Some(j) => {
                        lemma_acc_find_props(d, owner, mint);
                        lemma_acc_find_props(rd, owner, mint);
                        assert(acc_find(d, owner, mint) == Some(j - 1));
                        let t = acc_find(rd, owner, mint).unwrap();
                        assert(rd[t] == d[j - 1]);
                        assert(acc_find(r, owner, mint) == Some(t + 1));
                        assert(r[t + 1] == r.drop_first()[t]);
                        assert(d[j - 1] == s[j]);
                    },
                    None => {
                        assert(acc_find(d, owner, mint) is None);
                        assert(acc_find(rd, owner, mint) is None);
                    },
                }
            }
        }
    }
}

pub proof fn lemma_rec_find_remove(s: Seq<Offer>, i: int, maker: u64, id: u64)
    requires
        0 <= i < s.len(),
        rec_keys_unique(s),
    ensures
        s[i].maker == maker && s[i].id == id ==> rec_find(s.remove(i), maker, id) is None,
        !(s[i].maker == maker && s[i].id == id) ==> match rec_find(s, maker, id) {
            Some(j) => rec_find(s.remove(i), maker, id) is Some && s.remove(i)[rec_find(
                s.remove(i),
                maker,
                id,
            ).unwrap()] == s[j],
            None => rec_find(s.remove(i), maker, id) is None,
        },
    decreases s.len(),
{
    let r = s.remove(i);
    s.remove_ensures(i);
    if i == 0 {
        assert(r =~= s.drop_first());
        if s[0].maker == maker && s[0].id == id {
            lemma_rec_find_props(r, maker, id);
            if rec_find(r, maker, id) is Some {
                let t = rec_find(r, maker, id).unwrap();
                assert(r[t] == s[t + 1]);
                assert(!(s[0].maker == s[t + 1].maker && s[0].id == s[t + 1].id));
                assert(false);
            }
        } else {
            assert(rec_find(s, maker, id) == (match rec_find(s.drop_first(), maker, id) {
                Some(t) => Some(t + 1),
                None => None,
            }));
            if rec_find(s, maker, id) is Some {
                lemma_rec_find_props(s.drop_first(), maker, id);
                let j = rec_find(s, maker, id).unwrap();
                let t = rec_find(s.drop_first(), maker, id).unwrap();
                assert(j == t + 1);
                assert(r[t] == s[t + 1]);
            }
        }
    } else {
        assert(r[0] == s[0]);
        let d = s.drop_first();
        assert forall|a: int, b: int|
            #![trigger d[a], d[b]]
            0 <= a < b < d.len() implies !(d[a].maker == d[b].maker && d[a].id == d[b].id) by {
            assert(d[a] == s[a + 1]);
            assert(d[b] == s[b + 1]);
            assert(!(s[a + 1].maker == s[b + 1].maker && s[a + 1].id == s[b + 1].id));
        }
        d.remove_ensures(i - 1);
        let rd = d.remove(i - 1);
        assert(r.drop_first() =~= rd);
        assert(d[i - 1] == s[i]);
        lemma_rec_find_remove(d, i - 1, maker, id);
        if s[0].maker == maker && s[0].id == id {
            assert(!(s[i].maker == s[0].maker && s[i].id == s[0].id));
            assert(rec_find(s, maker, id) == Some(0int));
            assert(rec_find(r, maker, id) == Some(0int));
        } else {
            assert(rec_find(s, maker, id) == (match rec_find(d, maker, id) {
                Some(t) => Some(t + 1),
                None => None,
            }));
            assert(rec_find(r, maker, id) == (match rec_find(rd, maker, id) {
                Some(t) => Some(t + 1),
                None => None,
            }));
            if s[i].maker == maker && s[i].id == id {
                assert(rec_find(rd, maker, id) is None);
                assert(rec_find(r, maker, id) is None);
            } else {
                match rec_find(s, maker, id) {
                    Some(j) => {
                        lemma_rec_find_props(d, maker, id);
                        lemma_rec_find_props(rd, maker, id);
                        assert(rec_find(d, maker, id) == Some(j - 1));
                        let t = rec_find(rd, maker, id).unwrap();
                        assert(rd[t] == d[j - 1]);
                        assert(rec_find(r, maker, id) == Some(t + 1));
                        assert(r[t + 1] == r.drop_first()[t]);
                        assert(d[j - 1] == s[j]);
                    },
                    None => {
                        assert(rec_find(d, maker, id) is None);
                        assert(rec_find(rd, maker, id) is None);
                    },
                }
            }
        }
    }
}

impl Ledger {
    /// The ledger's balances, abstracted as a map keyed by (owner, mint).
    pub open spec fn balances(self) -> Map<(Address, u64), u64> {
        accounts_map(self.accounts@)
    }

    /// The outstanding offers, abstracted as a map keyed by (maker, id).
    pub open spec fn offers(self) -> Map<(u64, u64), Offer> {
        records_map(self.records@)
    }

    /// The registered decimal precision of `mint`, if registered.
    pub open spec fn decimals_of(self, mint: u64) -> Option<u8> {
        mint_decimals(self.mints@, mint)
    }

    /// Finds the index of the token account keyed (owner, mint).
    pub(crate) fn find_account_idx(&self, owner: Address, mint: u64) -> (r: Option<usize>)
        ensures
            match r {
                Some(i) => i < self.accounts@.len() && acc_find(self.accounts@, owner, mint)
                    == Some(i as int),
                None => acc_find(self.accounts@, owner, mint) is None,
            },
    {
        let mut i: usize = 0;
        while i < self.accounts.len()
            invariant
                i <= self.accounts@.len(),
                forall|j: int|
                    0 <= j < i ==> !(self.accounts@[j].owner == owner && self.accounts@[j].mint
                        == mint),
            decreases self.accounts@.len() - i,
        {
            let a = &self.accounts[i];
            if a.owner == owner && a.mint == mint {
                proof {
                    lemma_acc_find_exact(self.accounts@, owner, mint, i as int);
                }
                return Some(i);
            }
            i = i + 1;
        }
        proof {
            lemma_acc_find_props(self.accounts@, owner, mint);
            if acc_find(self.accounts@, owner, mint) is Some {
                let i0 = acc_find(self.accounts@, owner, mint).unwrap();
                assert(!(self.accounts@[i0].owner == owner && self.accounts@[i0].mint == mint));
                assert(false);
            }
        }
        None
    }

    /// Finds the index of the offer record keyed (maker, id).
    pub(crate) fn find_record_idx(&self, maker: u64, id: u64) -> (r: Option<usize>)
        ensures
            match r {
                Some(i) => i < self.records@.len() && rec_find(self.records@, maker, id)
                    == Some(i as int),
                None => rec_find(self.records@, maker, id) is None,
            },
    {
        let mut i: usize = 0;
        while i < self.records.len()
            invariant
                i <= self.records@.len(),
                forall|j: int|
                    0 <= j < i ==> !(self.records@[j].maker == maker && self.records@[j].id == id),
            decreases self.records@.len() - i,
        {
            let rec = &self.records[i];
            if rec.maker == maker && rec.id == id {
                proof {
                    lemma_rec_find_exact(self.records@, maker, id, i as int);
                }
                return Some(i);
            }
            i = i + 1;
        }
        proof {
            lemma_rec_find_props(self.records@, maker, id);
            if rec_find(self.records@, maker, id) is Some {
                let i0 = rec_find(self.records@, maker, id).unwrap();
                assert(!(self.records@[i0].maker == maker && self.records@[i0].id == id));
                assert(false);
            }
        }
        None
    }

    /// The well-formedness invariant every protocol step preserves:
    /// store keys are unique; every record is canonical (it sits under its
    /// own (maker, id) key with the canonical derivation nonce, and both of
    /// its assets are registered); a record exists only together with its
    /// vault; and every account owned by a derived address is the vault of
    /// an existing record for that very address.
    pub open spec fn wf(self) -> bool {
        &&& acc_keys_unique(self.accounts@)
        &&& rec_keys_unique(self.records@)
        &&& mint_keys_unique(self.mints@)
        &&& forall|k: (u64, u64)| #[trigger] self.offers().contains_key(k) ==> {
            let o = self.offers()[k];
            &&& o.maker == k.0
            &&& o.id == k.1
            &&& o.bump == spec_canonical_nonce(self.namespace, o.maker, o.id)
            &&& self.decimals_of(o.token_mint_a) is Some
            &&& self.decimals_of(o.token_mint_b) is Some
        }
        &&& forall|k: (u64, u64)| #[trigger] self.offers().contains_key(k)
            ==> self.balances().dom().contains(
                (spec_offer_address(self.namespace, k.0, k.1), self.offers()[k].token_mint_a),
            )
        &&& forall|k: (Address, u64)| #[trigger] self.balances().dom().contains(k) ==> (
        k.0 matches Address::Derived { namespace: ns, maker: mk, id: oid, nonce: nz } ==> {
            &&& ns == self.namespace
            &&& self.offers().contains_key((mk, oid))
            &&& self.offers()[(mk, oid)].bump == nz
            &&& self.offers()[(mk, oid)].token_mint_a == k.1
        })
    }

    /// Creates an empty ledger for the given program namespace.
    pub fn new(namespace: u64) -> (r: Ledger)
        ensures
            r.wf(),
            r.namespace == namespace,
            r.balances() == Map::<(Address, u64), u64>::empty(),
            r.offers() == Map::<(u64, u64), Offer>::empty(),
            forall|m: u64| #[trigger] r.decimals_of(m) is None,
    {
        let l = Ledger { namespace, mints: Vec::new(), accounts: Vec::new(), records: Vec::new() };
        proof {
            assert_maps_equal!(l.balances(), Map::<(Address, u64), u64>::empty(), k => {});
            assert_maps_equal!(l.offers(), Map::<(u64, u64), Offer>::empty(), k => {});
        }
        l
    }

    /// Looks up the registered decimal precision of `mint`.
    pub fn registered_decimals(&self, mint: u64) -> (r: Option<u8>)
        ensures
            r == self.decimals_of(mint),
    {
        let mut i: usize = 0;
        while i < self.mints.len()
            invariant
                i <= self.mints@.len(),
                forall|j: int| 0 <= j < i ==> self.mints@[j].mint != mint,
            decreases self.mints@.len() - i,
        {
            let m = &self.mints[i];
            if m.mint == mint {
                proof {
                    lemma_mint_find_exact(self.mints@, mint, i as int);
                }
                return Some(m.decimals);
            }
            i = i + 1;
        }
        proof {
            lemma_mint_find_props(self.mints@, mint);
            if mint_find(self.mints@, mint) is Some {
                let i0 = mint_find(self.mints@, mint).unwrap();
                assert(self.mints@[i0].mint != mint);
                assert(false);
            }
        }
        None
    }

    /// Appends a fresh token account keyed (owner, mint).
    pub(crate) fn create_account(&mut self, owner: Address, mint: u64, balance: u64)
        requires
            acc_find(old(self).accounts@, owner, mint) is None,
        ensures
            final(self).namespace == old(self).namespace,
            final(self).mints@ == old(self).mints@,
            final(self).records@ == old(self).records@,
            final(self).balances() == old(self).balances().insert((owner, mint), balance),
            acc_keys_unique(old(self).accounts@) ==> acc_keys_unique(final(self).accounts@),
    {
        let ghost s0 = self.accounts@;
        let x = TokenAccount { owner, mint, balance };
        self.accounts.push(x);
        proof {
            let s1 = self.accounts@;
            assert(s1 == s0.push(x));
            if acc_keys_unique(s0) {
                lemma_acc_find_props(s0, owner, mint);
                assert forall|a: int, b: int|
                    #![trigger s1[a], s1[b]]
                    0 <= a < b < s1.len() implies !(s1[a].owner == s1[b].owner && s1[a].mint
                    == s1[b].mint) by {
                    if b < s0.len() {
                        assert(s1[a] == s0[a]);
                        assert(s1[b] == s0[b]);
                        assert(!(s0[a].owner == s0[b].owner && s0[a].mint == s0[b].mint));
                    } else {
                        assert(s1[b] == x);
                        assert(s1[a] == s0[a]);
                        assert(!(s0[a].owner == owner && s0[a].mint == mint));
                    }
                }
            }
            assert_maps_equal!(accounts_map(s1), accounts_map(s0).insert((owner, mint), balance), k => {
                lemma_acc_find_push(s0, x, k.0, k.1);
                lemma_acc_find_props(s0, k.0, k.1);
                lemma_acc_find_props(s1, k.0, k.1);
            });
        }
    }

    /// Overwrites the balance of the token account at index `i`.
    pub(crate) fn set_balance_at(&mut self, i: usize, balance: u64)
        requires
            i < old(self).accounts@.len(),
            acc_keys_unique(old(self).accounts@),
        ensures
            final(self).namespace == old(self).namespace,
            final(self).mints@ == old(self).mints@,
            final(self).records@ == old(self).records@,
            acc_keys_unique(final(self).accounts@),
            final(self).balances() == old(self).balances().insert(
                (old(self).accounts@[i as int].owner, old(self).accounts@[i as int].mint),
                balance,
            ),
    {
        let owner = self.accounts[i].owner;
        let mint = self.accounts[i].mint;
        let ghost s0 = self.accounts@;
        self.accounts.set(i, TokenAccount { owner, mint, balance });
        proof {
            let s1 = self.accounts@;
            let x = TokenAccount { owner, mint, balance };
            assert(s1 == s0.update(i as int, x));
            assert forall|j: int| 0 <= j < i implies !(s0[j].owner == owner && s0[j].mint
                == mint) by {
                assert(!(s0[j].owner == s0[i as int].owner && s0[j].mint == s0[i as int].mint));
            }
            lemma_acc_find_exact(s0, owner, mint, i as int);
            assert forall|a: int, b: int|
                #![trigger s1[a], s1[b]]
                0 <= a < b < s1.len() implies !(s1[a].owner == s1[b].owner && s1[a].mint
                == s1[b].mint) by {
                assert(s0[a].owner == s1[a].owner && s0[a].mint == s1[a].mint);
                assert(s0[b].owner == s1[b].owner && s0[b].mint == s1[b].mint);
                assert(!(s0[a].owner == s0[b].owner && s0[a].mint == s0[b].mint));
            }
            assert_maps_equal!(accounts_map(s1), accounts_map(s0).insert((owner, mint), balance), k => {
                lemma_acc_find_update(s0, i as int, x, k.0, k.1);
                lemma_acc_find_props(s0, k.0, k.1);
                lemma_acc_find_props(s1, k.0, k.1);
            });
        }
    }

    /// Destroys the token account at index `i`.
    pub(crate) fn remove_account_at(&mut self, i: usize)
        requires
            i < old(self).accounts@.len(),
            acc_keys_unique(old(self).accounts@),
        ensures
            final(self).namespace == old(self).namespace,
            final(self).mints@ == old(self).mints@,
            final(self).records@ == old(self).records@,
            acc_keys_unique(final(self).accounts@),
            final(self).balances() == old(self).balances().remove(
                (old(self).accounts@[i as int].owner, old(self).accounts@[i as int].mint),
            ),
    {
        let ghost s0 = self.accounts@;
        self.accounts.remove(i);
        proof {
            let s1 = self.accounts@;
            assert(s1 == s0.remove(i as int));
            s0.remove_ensures(i as int);
            let owner = s0[i as int].owner;
            let mint = s0[i as int].mint;
            assert forall|j: int| 0 <= j < i implies !(s0[j].owner == owner && s0[j].mint
                == mint) by {
                assert(!(s0[j].owner == s0[i as int].owner && s0[j].mint == s0[i as int].mint));
            }
            lemma_acc_find_exact(s0, owner, mint, i as int);
            assert forall|a: int, b: int|
                #![trigger s1[a], s1[b]]
                0 <= a < b < s1.len() implies !(s1[a].owner == s1[b].owner && s1[a].mint
                == s1[b].mint) by {
                let a0: int = if a < i { a } else { a + 1 };
                let b0: int = if b < i { b } else { b + 1 };
                assert(s1[a] == s0[a0]);
                assert(s1[b] == s0[b0]);
                assert(!(s0[a0].owner == s0[b0].owner && s0[a0].mint == s0[b0].mint));
            }
            assert_maps_equal!(accounts_map(s1), accounts_map(s0).remove((owner, mint)), k => {
                lemma_acc_find_remove(s0, i as int, k.0, k.1);
                lemma_acc_find_props(s0, k.0, k.1);
                lemma_acc_find_props(s1, k.0, k.1);
            });
        }
    }

    /// Appends a fresh offer record.
    pub(crate) fn push_record(&mut self, offer: Offer)
        requires
            rec_find(old(self).records@, offer.maker, offer.id) is None,
        ensures
            final(self).namespace == old(self).namespace,
            final(self).mints@ == old(self).mints@,
            final(self).accounts@ == old(self).accounts@,
            final(self).offers() == old(self).offers().insert((offer.maker, offer.id), offer),
            rec_keys_unique(old(self).records@) ==> rec_keys_unique(final(self).records@),
    {
        let ghost s0 = self.records@;
        self.records.push(offer);
        proof {
            let s1 = self.records@;
            assert(s1 == s0.push(offer));
            if rec_keys_unique(s0) {
                lemma_rec_find_props(s0, offer.maker, offer.id);
                assert forall|a: int, b: int|
                    #![trigger s1[a], s1[b]]
                    0 <= a < b < s1.len() implies !(s1[a].maker == s1[b].maker && s1[a].id
                    == s1[b].id) by {
                    if b < s0.len() {
                        assert(s1[a] == s0[a]);
                        assert(s1[b] == s0[b]);
                        assert(!(s0[a].maker == s0[b].maker && s0[a].id == s0[b].id));
                    } else {
                        assert(s1[b] == offer);
                        assert(s1[a] == s0[a]);
                        assert(!(s0[a].maker == offer.maker && s0[a].id == offer.id));
                    }
                }
            }
            assert_maps_equal!(records_map(s1), records_map(s0).insert((offer.maker, offer.id), offer), k => {
                lemma_rec_find_push(s0, offer, k.0, k.1);
                lemma_rec_find_props(s0, k.0, k.1);
                lemma_rec_find_props(s1, k.0, k.1);
            });
        }
    }

    /// Destroys the offer record at index `i`.
    pub(crate) fn remove_record_at(&mut self, i: usize)
        requires
            i < old(self).records@.len(),
            rec_keys_unique(old(self).records@),
        ensures
            final(self).namespace == old(self).namespace,
            final(self).mints@ == old(self).mints@,
            final(self).accounts@ == old(self).accounts@,
            rec_keys_unique(final(self).records@),
            final(self).offers() == old(self).offers().remove(
                (old(self).records@[i as int].maker, old(self).records@[i as int].id),
            ),
    {
        let ghost s0 = self.records@;
        self.records.remove(i);
        proof {
            let s1 = self.records@;
            assert(s1 == s0.remove(i as int));
            s0.remove_ensures(i as int);
            let maker = s0[i as int].maker;
            let id = s0[i as int].id;
            assert forall|j: int| 0 <= j < i implies !(s0[j].maker == maker && s0[j].id == id) by {
                assert(!(s0[j].maker == s0[i as int].maker && s0[j].id == s0[i as int].id));
            }
            lemma_rec_find_exact(s0, maker, id, i as int);
            assert forall|a: int, b: int|
                #![trigger s1[a], s1[b]]
                0 <= a < b < s1.len() implies !(s1[a].maker == s1[b].maker && s1[a].id
                == s1[b].id) by {
                let a0: int = if a < i { a } else { a + 1 };
                let b0: int = if b < i { b } else { b + 1 };
                assert(s1[a] == s0[a0]);
                assert(s1[b] == s0[b0]);
                assert(!(s0[a0].maker == s0[b0].maker && s0[a0].id == s0[b0].id));
            }
            assert_maps_equal!(records_map(s1), records_map(s0).remove((maker, id)), k => {
                lemma_rec_find_remove(s0, i as int, k.0, k.1);
                lemma_rec_find_props(s0, k.0, k.1);
                lemma_rec_find_props(s1, k.0, k.1);
            });
        }
    }
}

impl Ledger {
    /// Registers a new asset identifier with its decimal precision; fails
    /// with `DuplicateRecord` when the mint is already registered.
    pub fn register_mint(&mut self, mint: u64, decimals: u8) -> (r: Result<(), ErrorCode>)
        requires
            old(self).wf(),
        ensures
            final(self).wf(),
            final(self).namespace == old(self).namespace,
            final(self).balances() == old(self).balances(),
            final(self).offers() == old(self).offers(),
            r is Ok <==> old(self).decimals_of(mint) is None,
            r is Err ==> r == Err::<(), ErrorCode>(ErrorCode::DuplicateRecord) && *final(self)
                == *old(self),
            r is Ok ==> forall|m: u64|
                #[trigger] final(self).decimals_of(m) == (if m == mint {
                    Some(decimals)
                } else {
                    old(self).decimals_of(m)
                }),
    {
        if self.registered_decimals(mint).is_some() {
            return Err(ErrorCode::DuplicateRecord);
        }
        let ghost pre = *self;
        let ghost s0 = self.mints@;
        let x = MintInfo { mint, decimals };
        self.mints.push(x);
        proof {
            let s1 = self.mints@;
            assert(s1 == s0.push(x));
            lemma_mint_find_props(s0, mint);
            assert forall|a: int, b: int|
                #![trigger s1[a], s1[b]]
                0 <= a < b < s1.len() implies s1[a].mint != s1[b].mint by {
                if b < s0.len() {
                    assert(s1[a] == s0[a]);
                    assert(s1[b] == s0[b]);
                    assert(s0[a].mint != s0[b].mint);
                } else {
                    assert(s1[b] == x);
                    assert(s1[a] == s0[a]);
                    assert(s0[a].mint != mint);
                }
            }
            assert forall|m: u64|
                #[trigger] self.decimals_of(m) == (if m == mint {
                    Some(decimals)
                } else {
                    pre.decimals_of(m)
                }) by {
                lemma_mint_find_push(s0, x, m);
                lemma_mint_find_props(s0, m);
                lemma_mint_find_props(s1, m);
            }
            assert forall|k: (u64, u64)| #[trigger] self.offers().contains_key(k) implies {
                let o = self.offers()[k];
                &&& o.maker == k.0
                &&& o.id == k.1
                &&& o.bump == spec_canonical_nonce(self.namespace, o.maker, o.id)
                &&& self.decimals_of(o.token_mint_a) is Some
                &&& self.decimals_of(o.token_mint_b) is Some
            } by {
                assert(pre.offers().contains_key(k));
                assert(pre.decimals_of(pre.offers()[k].token_mint_a) is Some);
                assert(pre.decimals_of(pre.offers()[k].token_mint_b) is Some);
            }
            assert forall|k: (u64, u64)| #[trigger] self.offers().contains_key(k) implies self
                .balances().dom().contains(
                (spec_offer_address(self.namespace, k.0, k.1), self.offers()[k].token_mint_a),
            ) by {
                assert(pre.offers().contains_key(k));
                assert(pre.balances().dom().contains(
                    (spec_offer_address(pre.namespace, k.0, k.1), pre.offers()[k].token_mint_a),
                ));
            }
            assert forall|k: (Address, u64)| #[trigger] self.balances().dom().contains(k) implies (
            k.0 matches Address::Derived { namespace: ns, maker: mk, id: oid, nonce: nz } ==> {
                &&& ns == self.namespace
                &&& self.offers().contains_key((mk, oid))
                &&& self.offers()[(mk, oid)].bump == nz
                &&& self.offers()[(mk, oid)].token_mint_a == k.1
            }) by {
                if k.0 is Derived {
                    assert(pre.balances().dom().contains(k));
                }
            }
        }
        Ok(())
    }

    /// Opens a token account for an ordinary party, holding an initial
    /// balance issued by the asset's mint. Fails with `RecordNotFound` when
    /// the mint is not registered, and with `DuplicateRecord` when the
    /// account already exists.
    pub fn open_token_account(&mut self, owner: u64, mint: u64, initial_balance: u64) -> (r:
        Result<(), ErrorCode>)
        requires
            old(self).wf(),
        ensures
            final(self).wf(),
            final(self).namespace == old(self).namespace,
            final(self).offers() == old(self).offers(),
            final(self).mints@ == old(self).mints@,
            r is Err ==> *final(self) == *old(self),
            r == Err::<(), ErrorCode>(ErrorCode::RecordNotFound) <==> old(self).decimals_of(mint)
                is None,
            r == Err::<(), ErrorCode>(ErrorCode::DuplicateRecord) <==> (old(self).decimals_of(mint)
                is Some && old(self).balances().dom().contains((Address::Account(owner), mint))),
            r is Ok <==> (old(self).decimals_of(mint) is Some && !old(self).balances().dom()
                .contains((Address::Account(owner), mint))),
            r is Ok ==> final(self).balances() == old(self).balances().insert(
                (Address::Account(owner), mint),
                initial_balance,
            ),
    {
        if self.registered_decimals(mint).is_none() {
            return Err(ErrorCode::RecordNotFound);
        }
        let ghost pre = *self;
        match self.find_account_idx(Address::Account(owner), mint) {
            Some(_) => Err(ErrorCode::DuplicateRecord),
            None => {
                self.create_account(Address::Account(owner), mint, initial_balance);
                proof {
                    lemma_wf_after_account_insert(
                        pre,
                        *self,
                        Address::Account(owner),
                        mint,
                        initial_balance,
                    );
                }
                Ok(())
            },
        }
    }

    /// Creates the (owner, mint) token account for an ordinary party if it
    /// does not exist yet, with a zero balance.
    pub(crate) fn ensure_account(&mut self, owner: u64, mint: u64)
        requires
            old(self).wf(),
        ensures
            final(self).wf(),
            final(self).namespace == old(self).namespace,
            final(self).mints@ == old(self).mints@,
            final(self).records@ == old(self).records@,
            final(self).offers() == old(self).offers(),
            final(self).balances() == (if old(self).balances().dom().contains(
                (Address::Account(owner), mint),
            ) {
                old(self).balances()
            } else {
                old(self).balances().insert((Address::Account(owner), mint), 0u64)
            }),
    {
        let ghost pre = *self;
        if self.find_account_idx(Address::Account(owner), mint).is_none() {
            self.create_account(Address::Account(owner), mint, 0);
            proof {
                lemma_wf_after_account_insert(pre, *self, Address::Account(owner), mint, 0u64);
            }
        }
    }

    /// The balance of the (owner, mint) token account, if that account
    /// exists on the ledger.
    pub fn token_balance(&self, owner: Address, mint: u64) -> (r: Option<u64>)
        ensures
            r is Some <==> self.balances().dom().contains((owner, mint)),
            r is Some ==> r.unwrap() == self.balances()[(owner, mint)],
    {
        match self.find_account_idx(owner, mint) {
            Some(i) => Some(self.accounts[i].balance),
            None => None,
        }
    }

    /// The stored offer record for (maker, id), if one exists.
    pub fn get_offer(&self, maker: u64, id: u64) -> (r: Option<Offer>)
        ensures
            r is Some <==> self.offers().contains_key((maker, id)),
            r is Some ==> r.unwrap() == self.offers()[(maker, id)],
    {
        match self.find_record_idx(maker, id) {
            Some(i) => Some(self.records[i]),
            None => None,
        }
    }
}

/// Balance changes that only overwrite existing accounts, or create
/// accounts owned by ordinary parties, leave the ledger invariant intact:
/// no vault appears or disappears.
pub proof fn lemma_wf_after_account_insert(
    pre: Ledger,
    post: Ledger,
    owner: Address,
    mint: u64,
    balance: u64,
)
    requires
        pre.wf(),
        post.namespace == pre.namespace,
        post.mints@ == pre.mints@,
        post.records@ == pre.records@,
        acc_keys_unique(post.accounts@),
        post.balances() == pre.balances().insert((owner, mint), balance),
        owner is Account || pre.balances().dom().contains((owner, mint)),
    ensures
        post.wf(),
{
    assert(post.offers() == pre.offers());
    assert forall|k: (u64, u64)| #[trigger] post.offers().contains_key(k) implies {
        let o = post.offers()[k];
        &&& o.maker == k.0
        &&& o.id == k.1
        &&& o.bump == spec_canonical_nonce(post.namespace, o.maker, o.id)
        &&& post.decimals_of(o.token_mint_a) is Some
        &&& post.decimals_of(o.token_mint_b) is Some
    } by {
        assert(pre.offers().contains_key(k));
        assert(pre.decimals_of(pre.offers()[k].token_mint_a) is Some);
    }
    assert forall|k: (u64, u64)| #[trigger] post.offers().contains_key(k) implies post.balances()
        .dom().contains(
        (spec_offer_address(post.namespace, k.0, k.1), post.offers()[k].token_mint_a),
    ) by {
        assert(pre.offers().contains_key(k));
        assert(pre.balances().dom().contains(
            (spec_offer_address(pre.namespace, k.0, k.1), pre.offers()[k].token_mint_a),
        ));
    }
    assert forall|k: (Address, u64)| #[trigger] post.balances().dom().contains(k) implies (
    k.0 matches Address::Derived { namespace: ns, maker: mk, id: oid, nonce: nz } ==> {
        &&& ns == post.namespace
        &&& post.offers().contains_key((mk, oid))
        &&& post.offers()[(mk, oid)].bump == nz
        &&& post.offers()[(mk, oid)].token_mint_a == k.1
    }) by {
        if k.0 is Derived {
            assert(pre.balances().dom().contains(k));
        }
    }
}

/// Creating an offer record together with its freshly funded vault, both
/// under the record's canonical derived address, re-establishes the ledger
/// invariant.
pub proof fn lemma_wf_after_make(
    pre: Ledger,
    post: Ledger,
    offer: Offer,
    maker_balance: u64,
    vault_balance: u64,
)
    requires
        pre.wf(),
        !pre.offers().contains_key((offer.maker, offer.id)),
        pre.decimals_of(offer.token_mint_a) is Some,
        pre.decimals_of(offer.token_mint_b) is Some,
        offer.bump == spec_canonical_nonce(pre.namespace, offer.maker, offer.id),
        pre.balances().dom().contains((Address::Account(offer.maker), offer.token_mint_a)),
        post.namespace == pre.namespace,
        post.mints@ == pre.mints@,
        acc_keys_unique(post.accounts@),
        rec_keys_unique(post.records@),
        post.offers() == pre.offers().insert((offer.maker, offer.id), offer),
        post.balances() == pre.balances().insert(
            (Address::Account(offer.maker), offer.token_mint_a),
            maker_balance,
        ).insert(
            (spec_offer_address(pre.namespace, offer.maker, offer.id), offer.token_mint_a),
            vault_balance,
        ),
    ensures
        post.wf(),
{
    let vkey = (spec_offer_address(pre.namespace, offer.maker, offer.id), offer.token_mint_a);
    assert forall|k: (u64, u64)| #[trigger] post.offers().contains_key(k) implies {
        let o = post.offers()[k];
        &&& o.maker == k.0
        &&& o.id == k.1
        &&& o.bump == spec_canonical_nonce(post.namespace, o.maker, o.id)
        &&& post.decimals_of(o.token_mint_a) is Some
        &&& post.decimals_of(o.token_mint_b) is Some
    } by {
        if k != (offer.maker, offer.id) {
            assert(pre.offers().contains_key(k));
            assert(pre.decimals_of(pre.offers()[k].token_mint_a) is Some);
        }
    }
    assert forall|k: (u64, u64)| #[trigger] post.offers().contains_key(k) implies post.balances()
        .dom().contains(
        (spec_offer_address(post.namespace, k.0, k.1), post.offers()[k].token_mint_a),
    ) by {
        if k == (offer.maker, offer.id) {
            assert(post.balances().dom().contains(vkey));
        } else {
            assert(pre.offers().contains_key(k));
            assert(pre.balances().dom().contains(
                (spec_offer_address(pre.namespace, k.0, k.1), pre.offers()[k].token_mint_a),
            ));
        }
    }
    assert forall|k: (Address, u64)| #[trigger] post.balances().dom().contains(k) implies (
    k.0 matches Address::Derived { namespace: ns, maker: mk, id: oid, nonce: nz } ==> {
        &&& ns == post.namespace
        &&& post.offers().contains_key((mk, oid))
        &&& post.offers()[(mk, oid)].bump == nz
        &&& post.offers()[(mk, oid)].token_mint_a == k.1
    }) by {
        if k.0 is Derived {
            if k == vkey {
                assert(post.offers().contains_key((offer.maker, offer.id)));
            } else {
                assert(pre.balances().dom().contains(k));
            }
        }
    }
}

/// Destroying an offer record together with its vault, and nothing else,
/// re-establishes the ledger invariant: the vault belonged to that record
/// alone.
pub proof fn lemma_wf_after_close(pre: Ledger, post: Ledger, maker: u64, id: u64)
    requires
        pre.wf(),
        pre.offers().contains_key((maker, id)),
        post.namespace == pre.namespace,
        post.mints@ == pre.mints@,
        acc_keys_unique(post.accounts@),
        rec_keys_unique(post.records@),
        post.offers() == pre.offers().remove((maker, id)),
        post.balances() == pre.balances().remove(
            (spec_offer_address(pre.namespace, maker, id), pre.offers()[(maker, id)].token_mint_a),
        ),
    ensures
        post.wf(),
{
    let o = pre.offers()[(maker, id)];
    let vkey = (spec_offer_address(pre.namespace, maker, id), o.token_mint_a);
    assert forall|k: (u64, u64)| #[trigger] post.offers().contains_key(k) implies {
        let o2 = post.offers()[k];
        &&& o2.maker == k.0
        &&& o2.id == k.1
        &&& o2.bump == spec_canonical_nonce(post.namespace, o2.maker, o2.id)
        &&& post.decimals_of(o2.token_mint_a) is Some
        &&& post.decimals_of(o2.token_mint_b) is Some
    } by {
        assert(pre.offers().contains_key(k));
        assert(pre.decimals_of(pre.offers()[k].token_mint_a) is Some);
    }
    assert forall|k: (u64, u64)| #[trigger] post.offers().contains_key(k) implies post.balances()
        .dom().contains(
        (spec_offer_address(post.namespace, k.0, k.1), post.offers()[k].token_mint_a),
    ) by {
        assert(pre.offers().contains_key(k));
        assert(k != (maker, id));
        assert(pre.balances().dom().contains(
            (spec_offer_address(pre.namespace, k.0, k.1), pre.offers()[k].token_mint_a),
        ));
        assert((spec_offer_address(pre.namespace, k.0, k.1), pre.offers()[k].token_mint_a) != vkey);
    }
    assert forall|k: (Address, u64)| #[trigger] post.balances().dom().contains(k) implies (
    k.0 matches Address::Derived { namespace: ns, maker: mk, id: oid, nonce: nz } ==> {
        &&& ns == post.namespace
        &&& post.offers().contains_key((mk, oid))
        &&& post.offers()[(mk, oid)].bump == nz
        &&& post.offers()[(mk, oid)].token_mint_a == k.1
    }) by {
        match k.0 {
            Address::Derived { namespace: ns, maker: mk, id: oid, nonce: nz } => {
                assert(pre.balances().dom().contains(k));
                assert(pre.offers().contains_key((mk, oid)));
                if (mk, oid) == (maker, id) {
                    assert(o.bump == spec_canonical_nonce(pre.namespace, maker, id));
                    assert(k == vkey);
                    assert(false);
                }
            },
            _ => {},
        }
    }
}

/// On a well-formed ledger an offer record exists exactly together with
/// its vault: the record for (maker, id) implies a vault at the record's
/// derived address holding its offered asset, and any account at that
/// derived address implies the record — so the pair is created and
/// destroyed as one.
pub proof fn lemma_record_iff_vault(l: Ledger, maker: u64, id: u64)
    requires
        l.wf(),
    ensures
        l.offers().contains_key((maker, id)) ==> l.balances().dom().contains(
            (spec_offer_address(l.namespace, maker, id), l.offers()[(maker, id)].token_mint_a),
        ),
        forall|m: u64|
            #![trigger l.balances().dom().contains((spec_offer_address(l.namespace, maker, id), m))]
            l.balances().dom().contains((spec_offer_address(l.namespace, maker, id), m))
                ==> l.offers().contains_key((maker, id)) && l.offers()[(maker, id)].token_mint_a
                == m,
{
    assert forall|m: u64|
        l.balances().dom().contains(
            (spec_offer_address(l.namespace, maker, id), m),
        ) implies l.offers().contains_key((maker, id)) && l.offers()[(maker, id)].token_mint_a
        == m by {
        assert(l.balances().dom().contains((spec_offer_address(l.namespace, maker, id), m)));
    }
}

} // verus!
