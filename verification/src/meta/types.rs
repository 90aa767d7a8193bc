//! The metadata that av keeps about its branches: a map from branch name to
//! branch record, held as a vector of records whose names are distinct.
use vstd::prelude::*;

use crate::gh::types::GhRepositoryDetails;
use crate::utils::text::same_text;

verus! {

pub struct PullRequestMeta {
    pub id: String,
    pub number: i64,
    pub permalink: String,
}

pub struct BranchMeta {
    pub name: String,
    pub parent_branch: Option<String>,
    pub parent_commit: Option<String>,
    pub head_commit: String,
    pub pull_request: Option<PullRequestMeta>,
}

/// The repository details as av stores them.
pub type RepositoryMeta = GhRepositoryDetails;

pub struct MetadataState {
    pub repository: Option<RepositoryMeta>,
    /// The tracked branches; no two records have the same name.
    pub branches: Vec<BranchMeta>,
}

/// The names of a sequence of branch records.
pub open spec fn branch_names(v: Seq<BranchMeta>) -> Seq<Seq<char>> {
    v.map_values(|b: BranchMeta| b.name@)
}

/// No two records of `v` have the same name.
pub open spec fn unique_names(v: Seq<BranchMeta>) -> bool {
    forall|i: int, j: int|
        0 <= i < v.len() && 0 <= j < v.len() && i != j ==> #[trigger] v[i].name@ != #[trigger] v[j].name@
}

/// Whether some record of `v` is named `k`.
pub open spec fn has_name(v: Seq<BranchMeta>, k: Seq<char>) -> bool {
    exists|i: int| 0 <= i < v.len() && #[trigger] v[i].name@ == k
}

/// The position of a record named `k` in `v`.
pub open spec fn name_index(v: Seq<BranchMeta>, k: Seq<char>) -> int {
    choose|i: int| 0 <= i < v.len() && #[trigger] v[i].name@ == k
}

/// The map from name to record that `v` holds.
pub open spec fn branch_map(v: Seq<BranchMeta>) -> Map<Seq<char>, BranchMeta> {
    Map::new(|k: Seq<char>| has_name(v, k), |k: Seq<char>| v[name_index(v, k)])
}

pub struct MetadataStateView {
    pub repository: Option<RepositoryMeta>,
    pub branches: Map<Seq<char>, BranchMeta>,
}

impl View for MetadataState {
    type V = MetadataStateView;

    open spec fn view(&self) -> MetadataStateView {
        MetadataStateView { repository: self.repository, branches: branch_map(self.branches@) }
    }
}

impl MetadataStateView {
    /// The state after `meta` is recorded under its name.
    pub open spec fn with_branch(self, meta: BranchMeta) -> MetadataStateView {
        MetadataStateView { branches: self.branches.insert(meta.name@, meta), ..self }
    }

    /// The state after the record named `name` is dropped.
    pub open spec fn without_branch(self, name: Seq<char>) -> MetadataStateView {
        MetadataStateView { branches: self.branches.remove(name), ..self }
    }

    /// The state after the repository details are replaced.
    pub open spec fn with_repository(self, repo: RepositoryMeta) -> MetadataStateView {
        MetadataStateView { repository: Some(repo), ..self }
    }
}

/// Each record of a map is filed under its own name.
pub open spec fn keyed_by_name(m: Map<Seq<char>, BranchMeta>) -> bool {
    forall|k: Seq<char>| #[trigger] m.contains_key(k) ==> m[k].name@ == k
}

pub proof fn lemma_branch_map_entry(v: Seq<BranchMeta>, i: int)
    requires
        unique_names(v),
        0 <= i < v.len(),
    ensures
        branch_map(v).contains_key(v[i].name@),
        branch_map(v)[v[i].name@] == v[i],
{
    let k = v[i].name@;
    assert(has_name(v, k));
    let j = name_index(v, k);
    assert(v[j].name@ == k);
}

/// The map of `v` has exactly the names of `v` as keys, is finite, files
/// every record under its name, and holds as many entries as `v`.
pub proof fn lemma_branch_map_dom(v: Seq<BranchMeta>)
    requires
        unique_names(v),
    ensures
        branch_map(v).dom() == branch_names(v).to_set(),
        branch_map(v).dom().finite(),
        branch_map(v).dom().len() == v.len(),
        keyed_by_name(branch_map(v)),
        forall|k: Seq<char>| #[trigger] branch_map(v).contains_key(k) <==> has_name(v, k),
{
    let names = branch_names(v);
    assert forall|k: Seq<char>| #[trigger] branch_map(v).dom().contains(k) <==> names.to_set().contains(k) by {
        if has_name(v, k) {
            let i = name_index(v, k);
            assert(names[i] == k);
        }
        if names.to_set().contains(k) {
            let i = choose|i: int| 0 <= i < names.len() && names[i] == k;
            assert(v[i].name@ == k);
        }
    }
    assert(branch_map(v).dom() =~= names.to_set());
    assert(names.no_duplicates());
    names.unique_seq_to_set();
    assert forall|k: Seq<char>| #[trigger] branch_map(v).contains_key(k) implies branch_map(v)[k].name@ == k by {
        let i = name_index(v, k);
        assert(v[i].name@ == k);
    }
}

impl MetadataState {
    /// No two branch records share a name.
    pub open spec fn wf(&self) -> bool {
        unique_names(self.branches@)
    }

    /// An empty state: no repository details and no branches.
    pub fn new() -> (s: Self)
        ensures
            s.wf(),
            s@.repository is None,
            s@.branches == Map::<Seq<char>, BranchMeta>::empty(),
    {
        let s = MetadataState { repository: None, branches: Vec::new() };
        assert(s@.branches =~= Map::<Seq<char>, BranchMeta>::empty());
        s
    }

    /// The position of the record named `name`, if there is one.
    fn position(&self, name: &str) -> (r: Option<usize>)
        requires
            self.wf(),
        ensures
            r is None <==> !self@.branches.contains_key(name@),
            r matches Some(i) ==> i < self.branches@.len() && self.branches@[i as int].name@ == name@,
    {
        let mut i: usize = 0;
        while i < self.branches.len()
            invariant
                i <= self.branches@.len(),
                forall|k: int| 0 <= k < i ==> self.branches@[k].name@ != name@,
            decreases self.branches.len() - i,
        {
            if same_text(self.branches[i].name.as_str(), name) {
                return Some(i);
            }
            i = i + 1;
        }
        proof {
            if has_name(self.branches@, name@) {
                let k = name_index(self.branches@, name@);
                assert(self.branches@[k].name@ == name@);
            }
        }
        None
    }

    /// The record of the branch named `name`.
    pub fn branch(&self, name: &str) -> (r: Option<&BranchMeta>)
        requires
            self.wf(),
        ensures
            r is Some <==> self@.branches.contains_key(name@),
            r matches Some(b) ==> *b == self@.branches[name@],
    {
        match self.position(name) {
            Some(i) => {
                proof {
                    lemma_branch_map_entry(self.branches@, i as int);
                }
                Some(&self.branches[i])
            },
            None => None,
        }
    }

    /// Records `branch_meta` under its name, replacing any record of that name.
    pub fn upsert_branch(&mut self, branch_meta: BranchMeta)
        requires
            old(self).wf(),
        ensures
            final(self).wf(),
            final(self)@ == old(self)@.with_branch(branch_meta),
    {
        let ghost old_v = self.branches@;
        let ghost key = branch_meta.name@;
        match self.position(branch_meta.name.as_str()) {
            Some(i) => {
                self.branches.remove(i);
                self.branches.insert(i, branch_meta);
                proof {
                    let v = self.branches@;
                    assert(v =~= old_v.update(i as int, branch_meta));
                    assert(unique_names(v)) by {
                        assert forall|a: int, b: int|
                            0 <= a < v.len() && 0 <= b < v.len() && a != b implies #[trigger] v[a].name@
                            != #[trigger] v[b].name@ by {
                            if a != i && b != i {
                                assert(v[a] == old_v[a] && v[b] == old_v[b]);
                            } else if a == i {
                                assert(v[b] == old_v[b]);
                                assert(old_v[i as int].name@ == key);
                            } else {
                                assert(v[a] == old_v[a]);
                                assert(old_v[i as int].name@ == key);
                            }
                        }
                    }
                    assert forall|k: Seq<char>| has_name(v, k) <==> #[trigger] has_name(old_v, k) || k == key by {
                        if has_name(old_v, k) {
                            let j = name_index(old_v, k);
                            if j == i {
                                assert(v[i as int].name@ == key);
                            } else {
                                assert(v[j].name@ == k);
                            }
                        }
                        if has_name(v, k) {
                            let j = name_index(v, k);
                            if j != i {
                                assert(old_v[j].name@ == k);
                            }
                        }
                        if k == key {
                            assert(v[i as int].name@ == key);
                        }
                    }
                    assert forall|k: Seq<char>| #[trigger] branch_map(v).contains_key(k) implies branch_map(v)[k]
                        == branch_map(old_v).insert(key, branch_meta)[k] by {
                        let j = name_index(v, k);
                        lemma_branch_map_entry(v, j);
                        if k != key {
                            assert(j != i);
                            assert(old_v[j] == v[j]);
                            lemma_branch_map_entry(old_v, j);
                        } else {
                            lemma_branch_map_entry(v, i as int);
                        }
                    }
                    assert(branch_map(v) =~= branch_map(old_v).insert(key, branch_meta));
                }
            },
            None => {
                self.branches.push(branch_meta);
                proof {
                    let v = self.branches@;
                    let n = old_v.len();
                    assert(v =~= old_v.push(branch_meta));
                    assert(unique_names(v)) by {
                        assert forall|a: int, b: int|
                            0 <= a < v.len() && 0 <= b < v.len() && a != b implies #[trigger] v[a].name@
                            != #[trigger] v[b].name@ by {
                            if a != n && b != n {
                                assert(v[a] == old_v[a] && v[b] == old_v[b]);
                            } else if a == n {
                                assert(v[b] == old_v[b]);
                                if old_v[b].name@ == key {
                                    assert(has_name(old_v, key));
                                }
                            } else {
                                assert(v[a] == old_v[a]);
                                if old_v[a].name@ == key {
                                    assert(has_name(old_v, key));
                                }
                            }
                        }
                    }
                    assert forall|k: Seq<char>| has_name(v, k) <==> #[trigger] has_name(old_v, k) || k == key by {
                        if has_name(old_v, k) {
                            let j = name_index(old_v, k);
                            assert(v[j].name@ == k);
                        }
                        if has_name(v, k) {
                            let j = name_index(v, k);
                            if j != n {
                                assert(old_v[j].name@ == k);
                            }
                        }
                        if k == key {
                            assert(v[n as int].name@ == key);
                        }
                    }
                    assert forall|k: Seq<char>| #[trigger] branch_map(v).contains_key(k) implies branch_map(v)[k]
                        == branch_map(old_v).insert(key, branch_meta)[k] by {
                        let j = name_index(v, k);
                        lemma_branch_map_entry(v, j);
                        if k != key {
                            assert(j != n);
                            assert(old_v[j] == v[j]);
                            lemma_branch_map_entry(old_v, j);
                        } else {
                            lemma_branch_map_entry(v, n as int);
                        }
                    }
                    assert(branch_map(v) =~= branch_map(old_v).insert(key, branch_meta));
                }
            },
        }
    }

    /// Drops the record named `name` and returns it, if there was one.
    pub fn delete_branch(&mut self, name: &str) -> (r: Option<BranchMeta>)
        requires
            old(self).wf(),
        ensures
            final(self).wf(),
            final(self)@ == old(self)@.without_branch(name@),
            r == old(self)@.branches.get(name@),
    {
        let ghost old_v = self.branches@;
        let ghost key = name@;
        match self.position(name) {
            Some(i) => {
                proof {
                    lemma_branch_map_entry(old_v, i as int);
                }
                let b = self.branches.remove(i);
                proof {
                    let v = self.branches@;
                    assert(v =~= old_v.remove(i as int));
                    assert forall|a: int| 0 <= a < v.len() implies #[trigger] v[a] == if a < i {
                        old_v[a]
                    } else {
                        old_v[a + 1]
                    } by {}
                    assert(unique_names(v)) by {
                        assert forall|a: int, c: int|
                            0 <= a < v.len() && 0 <= c < v.len() && a != c implies #[trigger] v[a].name@
                            != #[trigger] v[c].name@ by {
                            let a2 = if a < i { a } else { a + 1 };
                            let c2 = if c < i { c } else { c + 1 };
                            assert(v[a] == old_v[a2] && v[c] == old_v[c2]);
                        }
                    }
                    assert forall|k: Seq<char>| has_name(v, k) <==> #[trigger] has_name(old_v, k) && k != key by {
                        if has_name(old_v, k) && k != key {
                            let j = name_index(old_v, k);
                            assert(j != i);
                            let j2 = if j < i { j } else { j - 1 };
                            assert(v[j2].name@ == k);
                        }
                        if has_name(v, k) {
                            let j = name_index(v, k);
                            let j2 = if j < i { j } else { j + 1 };
                            assert(old_v[j2].name@ == k);
                            assert(j2 != i);
                        }
                    }
                    assert forall|k: Seq<char>| #[trigger] branch_map(v).contains_key(k) implies branch_map(v)[k]
                        == branch_map(old_v).remove(key)[k] by {
                        let j = name_index(v, k);
                        lemma_branch_map_entry(v, j);
                        let j2 = if j < i { j } else { j + 1 };
                        assert(old_v[j2] == v[j]);
                        lemma_branch_map_entry(old_v, j2);
                    }
                    assert(branch_map(v) =~= branch_map(old_v).remove(key));
                }
                Some(b)
            },
            None => {
                assert(branch_map(old_v).remove(key) =~= branch_map(old_v));
                None
            },
        }
    }

    /// The stored repository details.
    pub fn repository(&self) -> (r: Option<&RepositoryMeta>)
        ensures
            r is Some <==> self@.repository is Some,
            r matches Some(x) ==> *x == self@.repository->0,
    {
        self.repository.as_ref()
    }

    /// Replaces the stored repository details.
    pub fn set_repository(&mut self, repo_meta: RepositoryMeta)
        requires
            old(self).wf(),
        ensures
            final(self).wf(),
            final(self)@ == old(self)@.with_repository(repo_meta),
    {
        self.repository = Some(repo_meta);
    }
}

impl Default for MetadataState {
    fn default() -> (s: Self)
        ensures
            s.wf(),
            s@.repository is None,
            s@.branches == Map::<Seq<char>, BranchMeta>::empty(),
    {
        MetadataState::new()
    }
}

} // verus!
