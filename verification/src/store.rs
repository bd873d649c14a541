use vstd::prelude::*;

use crate::status::BuildResult;

verus! {

/// The decimal digit character of `d`.
pub open spec fn dec_digit(d: int) -> char {
    if d == 0 {
        '0'
    } else if d == 1 {
        '1'
    } else if d == 2 {
        '2'
    } else if d == 3 {
        '3'
    } else if d == 4 {
        '4'
    } else if d == 5 {
        '5'
    } else if d == 6 {
        '6'
    } else if d == 7 {
        '7'
    } else if d == 8 {
        '8'
    } else {
        '9'
    }
}

/// The decimal digits of `n`, most significant first.
pub open spec fn digits_spec(n: nat) -> Seq<char>
    decreases n,
{
    if n < 10 {
        seq![dec_digit(n as int)]
    } else {
        digits_spec(n / 10).push(dec_digit((n % 10) as int))
    }
}

proof fn lemma_digits_len(n: nat)
    ensures
        digits_spec(n).len() >= 1,
        n >= 10 ==> digits_spec(n).len() >= 2,
    decreases n,
{
    if n >= 10 {
        lemma_digits_len(n / 10);
    }
}

/// Distinct numbers write distinct digit strings.
proof fn lemma_digits_injective(n: nat, m: nat)
    requires
        digits_spec(n) == digits_spec(m),
    ensures
        n == m,
    decreases n,
{
    lemma_digits_len(n);
    lemma_digits_len(m);
    if n < 10 && m < 10 {
        assert(digits_spec(n)[0] == dec_digit(n as int));
        assert(digits_spec(m)[0] == dec_digit(m as int));
    } else if n < 10 {
        assert(digits_spec(n).len() == 1);
    } else if m < 10 {
        assert(digits_spec(m).len() == 1);
    } else {
        assert(digits_spec(n).last() == dec_digit((n % 10) as int));
        assert(digits_spec(m).last() == dec_digit((m % 10) as int));
        assert(n % 10 == m % 10);
        assert(digits_spec(n).drop_last() =~= digits_spec(n / 10));
        assert(digits_spec(m).drop_last() =~= digits_spec(m / 10));
        lemma_digits_injective(n / 10, m / 10);
    }
}

/// The offset that keeps every minted url_id at six characters or more.
pub open spec fn url_id_offset() -> nat {
    100000
}

/// The url_id minted for a deployment id: `'d'` and the decimal digits of
/// the id shifted by a fixed offset, so it is at least six characters,
/// URL safe, free of `'-'`, unique and stable.
pub open spec fn url_id_spec(id: int) -> Seq<char> {
    seq!['d'] + digits_spec((id + url_id_offset()) as nat)
}

/// Distinct deployment ids mint distinct url_ids.
pub proof fn lemma_url_id_injective(id1: int, id2: int)
    requires
        0 <= id1,
        0 <= id2,
        id1 != id2,
    ensures
        url_id_spec(id1) != url_id_spec(id2),
{
    if url_id_spec(id1) == url_id_spec(id2) {
        assert(url_id_spec(id1).skip(1) =~= digits_spec((id1 + url_id_offset()) as nat));
        assert(url_id_spec(id2).skip(1) =~= digits_spec((id2 + url_id_offset()) as nat));
        lemma_digits_injective((id1 + url_id_offset()) as nat, (id2 + url_id_offset()) as nat);
    }
}

/// A minted url_id never holds a `'-'`, so hostname minting stays injective.
pub proof fn lemma_url_id_wf(id: int)
    requires
        0 <= id,
    ensures
        url_id_spec(id).len() > 0,
        !url_id_spec(id).contains('-'),
{
    lemma_digits_no_dash((id + url_id_offset()) as nat);
    let u = url_id_spec(id);
    if u.contains('-') {
        let i = choose|i: int| 0 <= i < u.len() && u[i] == '-';
        if i > 0 {
            assert(digits_spec((id + url_id_offset()) as nat)[i - 1] == '-');
        }
    }
}

proof fn lemma_digits_no_dash(n: nat)
    ensures
        !digits_spec(n).contains('-'),
    decreases n,
{
    if n >= 10 {
        lemma_digits_no_dash(n / 10);
        if digits_spec(n).contains('-') {
            let i = choose|i: int| 0 <= i < digits_spec(n).len() && digits_spec(n)[i] == '-';
            if i < digits_spec(n).len() - 1 {
                assert(digits_spec(n / 10)[i] == '-');
            }
        }
    }
}

/// Appends the decimal digits of `n` to `out`.
fn append_digits(out: &mut String, n: u64)
    ensures
        final(out)@ == old(out)@ + digits_spec(n as nat),
    decreases n,
{
    if n >= 10 {
        append_digits(out, n / 10);
    }
    let d = n % 10;
    if d == 0 {
        out.append("0");
    } else if d == 1 {
        out.append("1");
    } else if d == 2 {
        out.append("2");
    } else if d == 3 {
        out.append("3");
    } else if d == 4 {
        out.append("4");
    } else if d == 5 {
        out.append("5");
    } else if d == 6 {
        out.append("6");
    } else if d == 7 {
        out.append("7");
    } else if d == 8 {
        out.append("8");
    } else {
        out.append("9");
    }
    proof {
        reveal_strlit("0");
        reveal_strlit("1");
        reveal_strlit("2");
        reveal_strlit("3");
        reveal_strlit("4");
        reveal_strlit("5");
        reveal_strlit("6");
        reveal_strlit("7");
        reveal_strlit("8");
        reveal_strlit("9");
        if n < 10 {
            assert(final(out)@ =~= old(out)@ + digits_spec(n as nat));
        } else {
            assert(final(out)@ =~= old(out)@ + digits_spec(n as nat));
        }
    }
}

/// Mints the url_id of a deployment id.
pub fn mint_url_id(id: i64) -> (r: String)
    requires
        0 <= id,
        id <= i64::MAX - 100000,
    ensures
        r@ == url_id_spec(id as int),
{
    proof {
        reveal_strlit("d");
        assert("d"@ =~= seq!['d']);
    }
    let mut out = "d".to_owned();
    append_digits(&mut out, (id as u64) + 100000);
    proof {
        assert(out@ =~= url_id_spec(id as int));
    }
    out
}

/// What a caller hands the store to make a deployment row.
#[derive(Clone, Debug)]
pub struct InsertDeployment {
    pub env: String,
    pub sha: String,
    pub timestamp: i64,
    pub branch: Option<String>,
    pub project: i64,
}

/// One deployment row: the immutable record of one build attempt. Only the
/// build timestamps and the result are ever filled in later.
#[derive(Clone, Debug)]
pub struct DeploymentRow {
    pub id: i64,
    pub url_id: String,
    pub project: i64,
    pub sha: String,
    pub branch: Option<String>,
    pub created: i64,
    pub build_started: Option<i64>,
    pub build_finished: Option<i64>,
    pub result: Option<BuildResult>,
    pub env: String,
}

/// One project row.
#[derive(Clone, Debug)]
pub struct ProjectRow {
    pub id: i64,
    pub name: String,
    pub repo_id: String,
    pub env: String,
    pub prod_deployment_id: Option<i64>,
    pub created: i64,
}

/// Errors the store surfaces.
#[derive(Clone, Copy, PartialEq, Eq, Structural, Debug)]
pub enum StoreError {
    /// A row with the same identity already exists.
    Conflict,
    /// The named row does not exist.
    NotFound,
}

/// Whether some deployment row carries this sha.
pub open spec fn sha_exists_in(deployments: Seq<DeploymentRow>, sha: Seq<char>) -> bool {
    exists|i: int| 0 <= i < deployments.len() && deployments[i].sha@ == sha
}

/// The project's production deployment, when set, is a built deployment of
/// that project.
pub open spec fn prod_ref_ok(deployments: Seq<DeploymentRow>, p: ProjectRow) -> bool {
    match p.prod_deployment_id {
        Some(d) => exists|k: int|
            #![auto]
            0 <= k < deployments.len() && deployments[k].id == d && deployments[k].project == p.id
                && deployments[k].result == Some(BuildResult::Built),
        None => true,
    }
}

/// The store of record: projects and deployment rows. All in-memory state
/// is derived from it.
pub struct Store {
    pub projects: Vec<ProjectRow>,
    pub deployments: Vec<DeploymentRow>,
    pub next_project_id: i64,
    pub next_deployment_id: i64,
}

/// The store's invariants: ids are unique and below the counters; a minted
/// url_id is the one of its row's id, so url_ids are unique; for any
/// project and sha there is at most one row; the build-finished timestamp
/// is recorded exactly when the result is; project names are unique; a
/// project's production deployment, when set, is a built deployment of
/// that project.
pub open spec fn store_wf(s: Store) -> bool {
    &&& 0 <= s.next_project_id
    &&& 0 <= s.next_deployment_id
    &&& forall|i: int, j: int|
        0 <= i < j < s.deployments@.len() ==> s.deployments@[i].id != s.deployments@[j].id
    &&& forall|i: int, j: int|
        0 <= i < j < s.deployments@.len() ==> !(s.deployments@[i].project == s.deployments@[j].project
            && s.deployments@[i].sha@ == s.deployments@[j].sha@)
    &&& forall|i: int|
        0 <= i < s.deployments@.len() ==> #[trigger] s.deployments@[i].url_id@ == url_id_spec(
            s.deployments@[i].id as int,
        )
    &&& forall|i: int|
        0 <= i < s.deployments@.len() ==> 0 <= #[trigger] s.deployments@[i].id
            < s.next_deployment_id
    &&& forall|i: int|
        0 <= i < s.deployments@.len() ==> (#[trigger] s.deployments@[i].build_finished is Some
            <==> s.deployments@[i].result is Some)
    &&& forall|i: int, j: int|
        0 <= i < j < s.projects@.len() ==> s.projects@[i].id != s.projects@[j].id
            && s.projects@[i].name@ != s.projects@[j].name@
    &&& forall|i: int|
        0 <= i < s.projects@.len() ==> 0 <= #[trigger] s.projects@[i].id < s.next_project_id
    &&& forall|i: int|
        0 <= i < s.projects@.len() ==> prod_ref_ok(s.deployments@, #[trigger] s.projects@[i])
}


/// Pushing a row keeps every production reference valid.
proof fn lemma_prod_ref_push(deployments: Seq<DeploymentRow>, row: DeploymentRow, p: ProjectRow)
    requires
        prod_ref_ok(deployments, p),
    ensures
        prod_ref_ok(deployments.push(row), p),
{
    match p.prod_deployment_id {
        Some(d) => {
            let w = choose|w: int|
                #![auto]
                0 <= w < deployments.len() && deployments[w].id == d && deployments[w].project
                    == p.id && deployments[w].result == Some(BuildResult::Built);
            assert(deployments.push(row)[w] == deployments[w]);
        },
        None => {},
    }
}

/// Updating a row keeps every production reference valid, as long as the
/// update keeps the row's identity and never takes a recorded success away.
proof fn lemma_prod_ref_update(
    deployments: Seq<DeploymentRow>,
    k: int,
    row: DeploymentRow,
    p: ProjectRow,
)
    requires
        0 <= k < deployments.len(),
        prod_ref_ok(deployments, p),
        row.id == deployments[k].id,
        row.project == deployments[k].project,
        deployments[k].result == Some(BuildResult::Built) ==> row.result == Some(
            BuildResult::Built,
        ),
    ensures
        prod_ref_ok(deployments.update(k, row), p),
{
    match p.prod_deployment_id {
        Some(d) => {
            let w = choose|w: int|
                #![auto]
                0 <= w < deployments.len() && deployments[w].id == d && deployments[w].project
                    == p.id && deployments[w].result == Some(BuildResult::Built);
            if w == k {
                assert(deployments.update(k, row)[k] == row);
            } else {
                assert(deployments.update(k, row)[w] == deployments[w]);
            }
        },
        None => {},
    }
}

impl Store {
    /// An empty store.
    pub fn new() -> (r: Store)
        ensures
            store_wf(r),
            r.projects@.len() == 0,
            r.deployments@.len() == 0,
    {
        Store {
            projects: Vec::new(),
            deployments: Vec::new(),
            next_project_id: 0,
            next_deployment_id: 0,
        }
    }

    /// Creates a project, failing with a conflict on a duplicate name.
    pub fn insert_project(
        &mut self,
        name: String,
        repo_id: String,
        env: String,
        created: i64,
    ) -> (r: Result<i64, StoreError>)
        requires
            store_wf(*old(self)),
            old(self).next_project_id < i64::MAX,
        ensures
            store_wf(*final(self)),
            final(self).deployments == old(self).deployments,
            match r {
                Ok(id) => final(self).projects@ == old(self).projects@.push(
                    ProjectRow { id, name, repo_id, env, prod_deployment_id: None, created },
                ) && id == old(self).next_project_id && !(exists|i: int|
                    0 <= i < old(self).projects@.len() && old(self).projects@[i].name@ == name@),
                Err(e) => e == StoreError::Conflict && *final(self) == *old(self) && exists|i: int|
                    0 <= i < old(self).projects@.len() && old(self).projects@[i].name@ == name@,
            },
    {
        let n = self.projects.len();
        let mut i: usize = 0;
        while i < n
            invariant
                0 <= i <= n,
                n == self.projects@.len(),
                self == old(self),
                store_wf(*old(self)),
                old(self).next_project_id < i64::MAX,
                forall|j: int| 0 <= j < i ==> self.projects@[j].name@ != name@,
            decreases n - i,
        {
            if self.projects[i].name.eq(&name) {
                return Err(StoreError::Conflict);
            }
            i = i + 1;
        }
        let id = self.next_project_id;
        self.next_project_id = id + 1;
        let row = ProjectRow { id, name, repo_id, env, prod_deployment_id: None, created };
        self.projects.push(row);
        proof {
            let ps = self.projects@;
            assert forall|a: int, b: int| 0 <= a < b < ps.len() implies ps[a].id != ps[b].id
                && ps[a].name@ != ps[b].name@ by {
                if b == ps.len() - 1 {
                    assert(ps[a] == old(self).projects@[a]);
                } else {
                    assert(ps[a] == old(self).projects@[a]);
                    assert(ps[b] == old(self).projects@[b]);
                }
            }
            assert forall|a: int| 0 <= a < ps.len() implies prod_ref_ok(
                self.deployments@,
                #[trigger] ps[a],
            ) by {
                if a < ps.len() - 1 {
                    assert(ps[a] == old(self).projects@[a]);
                }
            }
        }
        Ok(id)
    }

    /// Whether any deployment row carries this sha: the watcher's guard for
    /// idempotent insertion.
    pub fn hash_exists(&self, sha: &str) -> (r: bool)
        ensures
            r == sha_exists_in(self.deployments@, sha@),
    {
        let sha_owned = sha.to_owned();
        let n = self.deployments.len();
        let mut i: usize = 0;
        while i < n
            invariant
                0 <= i <= n,
                n == self.deployments@.len(),
                sha_owned@ == sha@,
                forall|j: int| 0 <= j < i ==> self.deployments@[j].sha@ != sha@,
            decreases n - i,
        {
            if self.deployments[i].sha.eq(&sha_owned) {
                return true;
            }
            i = i + 1;
        }
        false
    }

    /// Inserts a deployment row, assigning the next id and minting its
    /// url_id. Fails with a conflict when the project already has a row
    /// with this sha.
    pub fn insert_deployment(&mut self, spec: InsertDeployment) -> (r: Result<i64, StoreError>)
        requires
            store_wf(*old(self)),
            old(self).next_deployment_id <= i64::MAX - 100001,
        ensures
            store_wf(*final(self)),
            final(self).projects == old(self).projects,
            final(self).next_project_id == old(self).next_project_id,
            match r {
                Ok(id) => id == old(self).next_deployment_id && final(self).next_deployment_id
                    == id + 1 && final(self).deployments@.len() == old(self).deployments@.len() + 1
                    && final(self).deployments@.drop_last() == old(self).deployments@ && ({
                    let row = final(self).deployments@.last();
                    row.id == id && row.url_id@ == url_id_spec(id as int) && row.project
                        == spec.project && row.sha@ == spec.sha@ && row.branch == spec.branch
                        && row.created == spec.timestamp && row.build_started is None
                        && row.build_finished is None && row.result is None && row.env@
                        == spec.env@
                }) && !(exists|i: int|
                    0 <= i < old(self).deployments@.len() && old(self).deployments@[i].project
                        == spec.project && old(self).deployments@[i].sha@ == spec.sha@),
                Err(e) => e == StoreError::Conflict && *final(self) == *old(self) && exists|i: int|
                    0 <= i < old(self).deployments@.len() && old(self).deployments@[i].project
                        == spec.project && old(self).deployments@[i].sha@ == spec.sha@,
            },
    {
        let n = self.deployments.len();
        let mut i: usize = 0;
        while i < n
            invariant
                0 <= i <= n,
                n == self.deployments@.len(),
                self == old(self),
                store_wf(*old(self)),
                old(self).next_deployment_id <= i64::MAX - 100001,
                forall|j: int|
                    0 <= j < i ==> !(self.deployments@[j].project == spec.project
                        && self.deployments@[j].sha@ == spec.sha@),
            decreases n - i,
        {
            if self.deployments[i].project == spec.project && self.deployments[i].sha.eq(
                &spec.sha,
            ) {
                return Err(StoreError::Conflict);
            }
            i = i + 1;
        }
        let id = self.next_deployment_id;
        self.next_deployment_id = id + 1;
        let url_id = mint_url_id(id);
        let row = DeploymentRow {
            id,
            url_id,
            project: spec.project,
            sha: spec.sha,
            branch: spec.branch,
            created: spec.timestamp,
            build_started: None,
            build_finished: None,
            result: None,
            env: spec.env,
        };
        self.deployments.push(row);
        proof {
            let ds = self.deployments@;
            assert(ds.drop_last() =~= old(self).deployments@);
            assert forall|a: int, b: int| 0 <= a < b < ds.len() implies ds[a].id != ds[b].id && !(
            ds[a].project == ds[b].project && ds[a].sha@ == ds[b].sha@) by {
                if b < ds.len() - 1 {
                    assert(ds[a] == old(self).deployments@[a]);
                    assert(ds[b] == old(self).deployments@[b]);
                } else {
                    assert(ds[a] == old(self).deployments@[a]);
                    assert(ds[a].id < id);
                }
            }
            assert forall|a: int| 0 <= a < self.projects@.len() implies prod_ref_ok(
                ds,
                #[trigger] self.projects@[a],
            ) by {
                lemma_prod_ref_push(old(self).deployments@, ds.last(), self.projects@[a]);
                assert(old(self).deployments@.push(ds.last()) =~= ds);
            }
        }
        Ok(id)
    }

    /// Records when the build of a row started.
    pub fn set_build_started(&mut self, id: i64, ts: i64) -> (r: Result<(), StoreError>)
        requires
            store_wf(*old(self)),
        ensures
            store_wf(*final(self)),
            final(self).projects == old(self).projects,
            match r {
                Ok(()) => exists|k: int|
                    #![auto]
                    0 <= k < old(self).deployments@.len() && old(self).deployments@[k].id == id
                        && final(self).deployments@ == old(self).deployments@.update(
                        k,
                        DeploymentRow { build_started: Some(ts), ..old(self).deployments@[k] },
                    ),
                Err(e) => e == StoreError::NotFound && *final(self) == *old(self) && !(exists|
                    k: int,
                | 0 <= k < old(self).deployments@.len() && old(self).deployments@[k].id == id),
            },
    {
        let n = self.deployments.len();
        let mut i: usize = 0;
        while i < n
            invariant
                0 <= i <= n,
                n == self.deployments@.len(),
                self == old(self),
                store_wf(*old(self)),
                forall|j: int| 0 <= j < i ==> self.deployments@[j].id != id,
            decreases n - i,
        {
            if self.deployments[i].id == id {
                let taken = self.deployments.remove(i);
                let row = DeploymentRow { build_started: Some(ts), ..taken };
                self.deployments.insert(i, row);
                proof {
                    let updated = old(self).deployments@.update(
                        i as int,
                        DeploymentRow {
                            build_started: Some(ts),
                            ..old(self).deployments@[i as int]
                        },
                    );
                    assert(self.deployments@ =~= updated);
                    assert forall|a: int| 0 <= a < self.projects@.len() implies prod_ref_ok(
                        updated,
                        #[trigger] self.projects@[a],
                    ) by {
                        lemma_prod_ref_update(
                            old(self).deployments@,
                            i as int,
                            updated[i as int],
                            self.projects@[a],
                        );
                    }
                }
                return Ok(());
            }
            i = i + 1;
        }
        Err(StoreError::NotFound)
    }

    /// Records the outcome of a build: the finished timestamp and the
    /// result together, and only once per row.
    pub fn set_build_result(&mut self, id: i64, ts: i64, result: BuildResult) -> (r: Result<
        (),
        StoreError,
    >)
        requires
            store_wf(*old(self)),
        ensures
            store_wf(*final(self)),
            final(self).projects == old(self).projects,
            match r {
                Ok(()) => exists|k: int|
                    #![auto]
                    0 <= k < old(self).deployments@.len() && old(self).deployments@[k].id == id
                        && old(self).deployments@[k].result is None && final(self).deployments@
                        == old(self).deployments@.update(
                        k,
                        DeploymentRow {
                            build_finished: Some(ts),
                            result: Some(result),
                            ..old(self).deployments@[k]
                        },
                    ),
                Err(e) => *final(self) == *old(self) && ((e == StoreError::NotFound && !(exists|
                    k: int,
                | 0 <= k < old(self).deployments@.len() && old(self).deployments@[k].id == id)) || (
                e == StoreError::Conflict && exists|k: int|
                    #![auto]
                    0 <= k < old(self).deployments@.len() && old(self).deployments@[k].id == id
                        && old(self).deployments@[k].result is Some)),
            },
    {
        let n = self.deployments.len();
        let mut i: usize = 0;
        while i < n
            invariant
                0 <= i <= n,
                n == self.deployments@.len(),
                self == old(self),
                store_wf(*old(self)),
                forall|j: int| 0 <= j < i ==> self.deployments@[j].id != id,
            decreases n - i,
        {
            if self.deployments[i].id == id {
                if self.deployments[i].result.is_some() {
                    return Err(StoreError::Conflict);
                }
                let taken = self.deployments.remove(i);
                let row = DeploymentRow {
                    build_finished: Some(ts),
                    result: Some(result),
                    ..taken
                };
                self.deployments.insert(i, row);
                proof {
                    let updated = old(self).deployments@.update(
                        i as int,
                        DeploymentRow {
                            build_finished: Some(ts),
                            result: Some(result),
                            ..old(self).deployments@[i as int]
                        },
                    );
                    assert(self.deployments@ =~= updated);
                    assert forall|a: int| 0 <= a < self.projects@.len() implies prod_ref_ok(
                        updated,
                        #[trigger] self.projects@[a],
                    ) by {
                        lemma_prod_ref_update(
                            old(self).deployments@,
                            i as int,
                            updated[i as int],
                            self.projects@[a],
                        );
                    }
                }
                return Ok(());
            }
            i = i + 1;
        }
        Err(StoreError::NotFound)
    }

    /// Deletes a deployment row. A project whose production deployment it
    /// was is left without one.
    pub fn delete_deployment(&mut self, id: i64) -> (r: Result<(), StoreError>)
        requires
            store_wf(*old(self)),
        ensures
            store_wf(*final(self)),
            final(self).projects@.len() == old(self).projects@.len(),
            forall|i: int|
                0 <= i < old(self).projects@.len() ==> #[trigger] final(self).projects@[i] == (
                if old(self).projects@[i].prod_deployment_id == Some(id) {
                    ProjectRow { prod_deployment_id: None, ..old(self).projects@[i] }
                } else {
                    old(self).projects@[i]
                }),
            match r {
                Ok(()) => exists|k: int|
                    #![auto]
                    0 <= k < old(self).deployments@.len() && old(self).deployments@[k].id == id
                        && final(self).deployments@ == old(self).deployments@.remove(k),
                Err(e) => e == StoreError::NotFound && final(self).deployments == old(
                    self,
                ).deployments && !(exists|k: int|
                    0 <= k < old(self).deployments@.len() && old(self).deployments@[k].id == id),
            },
    {
        let pn = self.projects.len();
        let mut j: usize = 0;
        while j < pn
            invariant
                0 <= j <= pn,
                pn == self.projects@.len(),
                store_wf(*old(self)),
                self.deployments == old(self).deployments,
                self.next_project_id == old(self).next_project_id,
                self.next_deployment_id == old(self).next_deployment_id,
                self.projects@.len() == old(self).projects@.len(),
                forall|i: int|
                    0 <= i < j ==> #[trigger] self.projects@[i] == (if old(
                        self,
                    ).projects@[i].prod_deployment_id == Some(id) {
                        ProjectRow { prod_deployment_id: None, ..old(self).projects@[i] }
                    } else {
                        old(self).projects@[i]
                    }),
                forall|i: int|
                    j <= i < pn ==> #[trigger] self.projects@[i] == old(self).projects@[i],
            decreases pn - j,
        {
            let clear = match self.projects[j].prod_deployment_id {
                Some(d) => d == id,
                None => false,
            };
            if clear {
                let taken = self.projects.remove(j);
                let row = ProjectRow { prod_deployment_id: None, ..taken };
                self.projects.insert(j, row);
            }
            j = j + 1;
        }
        let ghost cleared = self.projects@;
        let dn = self.deployments.len();
        let mut i: usize = 0;
        while i < dn
            invariant
                0 <= i <= dn,
                dn == self.deployments@.len(),
                store_wf(*old(self)),
                cleared == self.projects@,
                self.deployments == old(self).deployments,
                self.next_project_id == old(self).next_project_id,
                self.next_deployment_id == old(self).next_deployment_id,
                self.projects@.len() == old(self).projects@.len(),
                forall|a: int|
                    0 <= a < old(self).projects@.len() ==> #[trigger] self.projects@[a] == (if old(
                        self,
                    ).projects@[a].prod_deployment_id == Some(id) {
                        ProjectRow { prod_deployment_id: None, ..old(self).projects@[a] }
                    } else {
                        old(self).projects@[a]
                    }),
                forall|k: int| 0 <= k < i ==> self.deployments@[k].id != id,
            decreases dn - i,
        {
            if self.deployments[i].id == id {
                self.deployments.remove(i);
                proof {
                    let olddeps = old(self).deployments@;
                    let deps = self.deployments@;
                    assert forall|a: int, b: int|
                        0 <= a < b < deps.len() implies deps[a].id != deps[b].id && !(deps[a].project
                        == deps[b].project && deps[a].sha@ == deps[b].sha@) by {
                        let a2: int = if a < i { a } else { a + 1 };
                        let b2: int = if b < i { b } else { b + 1 };
                        assert(deps[a] == olddeps[a2]);
                        assert(deps[b] == olddeps[b2]);
                    }
                    assert forall|a: int|
                        0 <= a < deps.len() implies #[trigger] deps[a].url_id@ == url_id_spec(
                        deps[a].id as int,
                    ) && 0 <= deps[a].id < self.next_deployment_id && (deps[a].build_finished is Some
                        <==> deps[a].result is Some) by {
                        let a2: int = if a < i { a } else { a + 1 };
                        assert(deps[a] == olddeps[a2]);
                        assert(olddeps[a2].url_id@ == url_id_spec(olddeps[a2].id as int));
                        assert(0 <= olddeps[a2].id < old(self).next_deployment_id);
                        assert(olddeps[a2].build_finished is Some <==> olddeps[a2].result is Some);
                    }
                    assert forall|a: int|
                        0 <= a < self.projects@.len() implies prod_ref_ok(
                        deps,
                        #[trigger] self.projects@[a],
                    ) by {
                        let p = self.projects@[a];
                        match p.prod_deployment_id {
                            Some(d) => {
                                assert(d != id);
                                assert(prod_ref_ok(olddeps, old(self).projects@[a]));
                                assert(old(self).projects@[a].prod_deployment_id == Some(d));
                                let w = choose|w: int|
                                    #![auto]
                                    0 <= w < olddeps.len() && olddeps[w].id == d && olddeps[w].project
                                        == p.id && olddeps[w].result == Some(BuildResult::Built);
                                assert(olddeps[w].id != olddeps[i as int].id || w == i);
                                assert(w != i);
                                let w2: int = if w < i {
                                    w
                                } else {
                                    w - 1
                                };
                                assert(deps[w2] == olddeps[w]);
                            },
                            None => {},
                        }
                    }
                }
                return Ok(());
            }
            i = i + 1;
        }
        Err(StoreError::NotFound)
    }

    /// Whether a newly finished default-branch build replaces the current
    /// production deployment: the later `build_finished` wins, and a tie is
    /// broken by the higher deployment id.
    pub fn promotion_wins(
        current_finished: i64,
        current_id: i64,
        candidate_finished: i64,
        candidate_id: i64,
    ) -> (r: bool)
        ensures
            r == (candidate_finished > current_finished || (candidate_finished
                == current_finished && candidate_id > current_id)),
    {
        candidate_finished > current_finished || (candidate_finished == current_finished
            && candidate_id > current_id)
    }

    /// Makes a built deployment its project's production deployment.
    pub fn promote_prod(&mut self, project_id: i64, deployment_id: i64) -> (r: Result<
        (),
        StoreError,
    >)
        requires
            store_wf(*old(self)),
        ensures
            store_wf(*final(self)),
            final(self).deployments == old(self).deployments,
            match r {
                Ok(()) => exists|k: int|
                    #![auto]
                    0 <= k < old(self).projects@.len() && old(self).projects@[k].id == project_id
                        && final(self).projects@ == old(self).projects@.update(
                        k,
                        ProjectRow {
                            prod_deployment_id: Some(deployment_id),
                            ..old(self).projects@[k]
                        },
                    ),
                Err(e) => e == StoreError::NotFound && *final(self) == *old(self) && (!(exists|
                    k: int,
                |
                    #![auto]
                    0 <= k < old(self).deployments@.len() && old(self).deployments@[k].id
                        == deployment_id && old(self).deployments@[k].project == project_id && old(
                        self,
                    ).deployments@[k].result == Some(BuildResult::Built)) || !(exists|j: int|
                    0 <= j < old(self).projects@.len() && old(self).projects@[j].id
                        == project_id)),
            },
    {
        let mut found = false;
        let dn = self.deployments.len();
        let mut i: usize = 0;
        while i < dn
            invariant
                0 <= i <= dn,
                dn == self.deployments@.len(),
                self == old(self),
                store_wf(*old(self)),
                found ==> exists|k: int|
                    #![auto]
                    0 <= k < self.deployments@.len() && self.deployments@[k].id == deployment_id
                        && self.deployments@[k].project == project_id
                        && self.deployments@[k].result == Some(BuildResult::Built),
                !found ==> forall|k: int|
                    0 <= k < i ==> !(self.deployments@[k].id == deployment_id
                        && self.deployments@[k].project == project_id
                        && self.deployments@[k].result == Some(BuildResult::Built)),
            decreases dn - i,
        {
            if self.deployments[i].id == deployment_id && self.deployments[i].project
                == project_id {
                match self.deployments[i].result {
                    Some(BuildResult::Built) => {
                        found = true;
                    },
                    _ => {},
                }
            }
            i = i + 1;
        }
        if !found {
            return Err(StoreError::NotFound);
        }
        let pn = self.projects.len();
        let mut j: usize = 0;
        while j < pn
            invariant
                0 <= j <= pn,
                pn == self.projects@.len(),
                self == old(self),
                store_wf(*old(self)),
                exists|k: int|
                    #![auto]
                    0 <= k < self.deployments@.len() && self.deployments@[k].id == deployment_id
                        && self.deployments@[k].project == project_id
                        && self.deployments@[k].result == Some(BuildResult::Built),
                forall|j2: int| 0 <= j2 < j ==> self.projects@[j2].id != project_id,
            decreases pn - j,
        {
            if self.projects[j].id == project_id {
                let taken = self.projects.remove(j);
                let row = ProjectRow { prod_deployment_id: Some(deployment_id), ..taken };
                self.projects.insert(j, row);
                proof {
                    let updated = old(self).projects@.update(
                        j as int,
                        ProjectRow {
                            prod_deployment_id: Some(deployment_id),
                            ..old(self).projects@[j as int]
                        },
                    );
                    assert(self.projects@ =~= updated);
                    assert forall|a: int| 0 <= a < updated.len() implies prod_ref_ok(
                        self.deployments@,
                        #[trigger] updated[a],
                    ) by {
                        if a != j {
                            assert(updated[a] == old(self).projects@[a]);
                        }
                    }
                    assert forall|a: int, b: int| 0 <= a < b < updated.len() implies updated[a].id
                        != updated[b].id && updated[a].name@ != updated[b].name@ by {
                        assert(old(self).projects@[a].id != old(self).projects@[b].id);
                        assert(old(self).projects@[a].name@ != old(self).projects@[b].name@);
                    }
                }
                return Ok(());
            }
            j = j + 1;
        }
        Err(StoreError::NotFound)
    }
}

} // verus!
