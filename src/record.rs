//! Fork records as the remote API reports them, and their projection onto the
//! organization-owned forks that the report lists.
use vstd::prelude::*;
use vstd::seq_lib::{lemma_multiset_commutative, to_multiset_build, to_multiset_contains, to_multiset_remove};

verus! {

/// The kind of account that owns a fork.
#[derive(Clone, Copy, Debug, PartialEq, Eq, Structural)]
pub enum OwnerType {
    User,
    Organization,
    /// Any other account kind, or a fork whose owner is not reported.
    Other,
}

/// One fork of the repository.
#[derive(Clone, Debug, PartialEq, Eq)]
pub struct ForkRecord {
    pub owner_login: String,
    pub owner_type: OwnerType,
    pub fork_name: String,
    pub html_url: Option<String>,
}

/// One line of the report: an organization, its fork, and the fork's URL.
#[derive(Clone, Debug, PartialEq, Eq)]
pub struct OrgFork {
    pub org_login: String,
    pub fork_name: String,
    pub fork_url: String,
}

/// The account kind that the API writes as `name`.
pub open spec fn owner_type_of(name: Seq<char>) -> OwnerType {
    if name == seq!['O', 'r', 'g', 'a', 'n', 'i', 'z', 'a', 't', 'i', 'o', 'n'] {
        OwnerType::Organization
    } else if name == seq!['U', 's', 'e', 'r'] {
        OwnerType::User
    } else {
        OwnerType::Other
    }
}

/// Exact equality of a string and a sequence of characters.
pub(crate) fn str_equals(s: &str, t: &Vec<char>) -> (r: bool)
    ensures
        r == (s@ == t@),
{
    let n = s.unicode_len();
    if n != t.len() {
        return false;
    }
    let mut i: usize = 0;
    while i < n
        invariant
            n == s@.len(),
            n == t@.len(),
            i <= n,
            forall|k: int| 0 <= k < i ==> s@[k] == t@[k],
        decreases n - i,
    {
        if s.get_char(i) != t[i] {
            return false;
        }
        i = i + 1;
    }
    assert(s@ =~= t@);
    true
}

impl OwnerType {
    /// Reads the account kind from the name the API gives it.
    pub fn from_type_name(name: &str) -> (r: OwnerType)
        ensures
            r == owner_type_of(name@),
    {
        let org = vec!['O', 'r', 'g', 'a', 'n', 'i', 'z', 'a', 't', 'i', 'o', 'n'];
        let user = vec!['U', 's', 'e', 'r'];
        assert(org@ == seq!['O', 'r', 'g', 'a', 'n', 'i', 'z', 'a', 't', 'i', 'o', 'n']);
        assert(user@ == seq!['U', 's', 'e', 'r']);
        if str_equals(name, &org) {
            OwnerType::Organization
        } else if str_equals(name, &user) {
            OwnerType::User
        } else {
            OwnerType::Other
        }
    }
}

/// The URL text of a fork, empty where none is reported.
pub open spec fn url_text(u: Option<String>) -> Seq<char> {
    match u {
        Some(s) => s@,
        None => Seq::empty(),
    }
}

/// The report line of an organization-owned fork, as plain text.
pub open spec fn project(r: ForkRecord) -> (Seq<char>, Seq<char>, Seq<char>) {
    (r.owner_login@, r.fork_name@, url_text(r.html_url))
}

pub open spec fn is_org(r: ForkRecord) -> bool {
    r.owner_type == OwnerType::Organization
}

/// The report lines of the organization-owned records of `s`, in their order.
pub open spec fn org_forks_of(s: Seq<ForkRecord>) -> Seq<(Seq<char>, Seq<char>, Seq<char>)>
    decreases s.len(),
{
    if s.len() == 0 {
        Seq::empty()
    } else {
        let rest = org_forks_of(s.drop_last());
        if is_org(s.last()) {
            rest.push(project(s.last()))
        } else {
            rest
        }
    }
}

impl OrgFork {
    pub open spec fn view(&self) -> (Seq<char>, Seq<char>, Seq<char>) {
        (self.org_login@, self.fork_name@, self.fork_url@)
    }
}

pub open spec fn org_fork_views(v: Seq<OrgFork>) -> Seq<(Seq<char>, Seq<char>, Seq<char>)> {
    v.map_values(|o: OrgFork| o.view())
}

/// Keeps the organization-owned records and projects each onto its report
/// line; a missing URL becomes the empty string.
pub fn organization_forks(records: &Vec<ForkRecord>) -> (r: Vec<OrgFork>)
    ensures
        org_fork_views(r@) == org_forks_of(records@),
{
    let mut out: Vec<OrgFork> = Vec::new();
    let mut i: usize = 0;
    while i < records.len()
        invariant
            i <= records@.len(),
            org_fork_views(out@) == org_forks_of(records@.take(i as int)),
        decreases records@.len() - i,
    {
        let rec = &records[i];
        proof {
            assert(records@.take(i + 1).drop_last() =~= records@.take(i as int));
            assert(records@.take(i + 1).last() == records@[i as int]);
        }
        if rec.owner_type == OwnerType::Organization {
            let url = match &rec.html_url {
                Some(u) => u.clone(),
                None => String::new(),
            };
            let line = OrgFork {
                org_login: rec.owner_login.clone(),
                fork_name: rec.fork_name.clone(),
                fork_url: url,
            };
            out.push(line);
            proof {
                assert(org_fork_views(out@) =~= org_fork_views(out@.drop_last()).push(line.view()));
            }
        }
        i = i + 1;
    }
    assert(records@.take(records@.len() as int) =~= records@);
    out
}

/// Filtering a concatenation filters each part.
pub proof fn lemma_org_forks_concat(a: Seq<ForkRecord>, b: Seq<ForkRecord>)
    ensures
        org_forks_of(a + b) == org_forks_of(a) + org_forks_of(b),
    decreases b.len(),
{
    if b.len() == 0 {
        assert(a + b =~= a);
        assert(org_forks_of(a) + org_forks_of(b) =~= org_forks_of(a));
    } else {
        assert((a + b).drop_last() =~= a + b.drop_last());
        assert((a + b).last() == b.last());
        lemma_org_forks_concat(a, b.drop_last());
        let x = org_forks_of(a);
        let y = org_forks_of(b.drop_last());
        assert((x + y).push(project(b.last())) =~= x + y.push(project(b.last())));
    }
}

/// Report lines depend on the records only up to order: two sequences of
/// records that are permutations of each other give report lines that are
/// permutations of each other.
pub proof fn lemma_org_forks_permutation(s1: Seq<ForkRecord>, s2: Seq<ForkRecord>)
    requires
        s1.to_multiset() == s2.to_multiset(),
    ensures
        org_forks_of(s1).to_multiset() == org_forks_of(s2).to_multiset(),
    decreases s1.len(),
{
    broadcast use vstd::seq_lib::group_to_multiset_ensures;
    if s1.len() == 0 {
        assert(s1.to_multiset().len() == 0);
        assert(s2.to_multiset().len() == s2.len());
        assert(s1 =~= s2);
    } else {
        let e = s1.last();
        let r1 = s1.drop_last();
        assert(s1 =~= r1.push(e));
        to_multiset_build(r1, e);
        to_multiset_contains(s2, e);
        assert(s2.to_multiset().count(e) > 0);
        let i = choose|i: int| 0 <= i < s2.len() && s2[i] == e;
        let r2 = s2.remove(i);
        to_multiset_remove(s2, i);
        assert(r1.to_multiset() =~= r2.to_multiset());
        lemma_org_forks_permutation(r1, r2);
        let one = seq![e];
        let front = s2.take(i);
        let back = s2.skip(i + 1);
        assert(s2 =~= front + (one + back));
        assert(r2 =~= front + back);
        assert(s1 =~= r1 + one);
        lemma_org_forks_concat(r1, one);
        lemma_org_forks_concat(front, one + back);
        lemma_org_forks_concat(one, back);
        lemma_org_forks_concat(front, back);
        let of = org_forks_of(front);
        let oo = org_forks_of(one);
        let ob = org_forks_of(back);
        lemma_multiset_commutative(org_forks_of(r1), oo);
        lemma_multiset_commutative(of, oo + ob);
        lemma_multiset_commutative(oo, ob);
        lemma_multiset_commutative(of, ob);
        assert(org_forks_of(s2).to_multiset() =~= org_forks_of(r2).to_multiset().add(oo.to_multiset()));
    }
}

} // verus!
