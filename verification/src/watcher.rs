use vstd::prelude::*;

use crate::store::DeploymentRow;
use crate::store::InsertDeployment;
use crate::store::Store;
use crate::store::sha_exists_in;
use crate::store::store_wf;

verus! {

/// What a source-host call can fail with.
#[derive(Clone, Copy, PartialEq, Eq, Structural, Debug)]
pub enum SourceErr {
    /// Network trouble or rate limiting: the whole cycle is aborted.
    Transient,
    /// The repository or branch is gone: only this project is skipped.
    NotFound,
    /// Bad credentials: the whole cycle is aborted.
    Auth,
}

/// An error aborts the cycle unless it only says one project is missing.
pub open spec fn err_aborts(e: SourceErr) -> bool {
    e != SourceErr::NotFound
}

/// The head commit the watcher saw on some branch.
#[derive(Debug)]
pub struct CommitObs {
    pub sha: String,
    pub timestamp: i64,
}

/// One open pull request: its head branch and the fetch of that branch's
/// head commit.
#[derive(Debug)]
pub struct BranchObs {
    pub branch: String,
    pub head: Result<Option<CommitObs>, SourceErr>,
}

/// Everything the watcher fetched for one project in one cycle.
#[derive(Debug)]
pub struct ProjectObs {
    pub project_id: i64,
    pub env: String,
    pub default_head: Result<Option<CommitObs>, SourceErr>,
    pub pulls: Result<Vec<BranchObs>, SourceErr>,
}

/// How many rows one project's observation can insert at most.
pub open spec fn obs_weight(ob: ProjectObs) -> int {
    1 + match ob.pulls {
        Ok(pulls) => pulls@.len() as int,
        Err(_) => 0,
    }
}

/// The insert budget of a whole cycle.
pub open spec fn obs_total(obs: Seq<ProjectObs>) -> int
    decreases obs.len(),
{
    if obs.len() == 0 {
        0
    } else {
        obs_total(obs.drop_last()) + obs_weight(obs.last())
    }
}

/// Whether one pull-head fetch carries an error that aborts the cycle.
pub open spec fn head_aborts(h: Result<Option<CommitObs>, SourceErr>) -> bool {
    match h {
        Err(e) => err_aborts(e),
        Ok(_) => false,
    }
}

/// Whether processing this project hits an error that aborts the cycle.
pub open spec fn spec_project_aborts(ob: ProjectObs) -> bool {
    match ob.default_head {
        Err(e) => err_aborts(e),
        Ok(_) => match ob.pulls {
            Err(e) => err_aborts(e),
            Ok(pulls) => exists|j: int| 0 <= j < pulls@.len() && head_aborts(#[trigger] pulls@[j].head),
        },
    }
}

/// Whether a deployment row is one this observation asks for: the observed
/// head of the default branch as a production candidate, or the observed
/// head of an open pull request under its branch name.
pub open spec fn row_from_ob(row: DeploymentRow, ob: ProjectObs) -> bool {
    &&& row.project == ob.project_id
    &&& row.env@ == ob.env@
    &&& row.build_started is None
    &&& row.build_finished is None
    &&& row.result is None
    &&& ((row.branch is None && (ob.default_head matches Ok(Some(c)) && c.sha@ == row.sha@
        && c.timestamp == row.created)) || (row.branch matches Some(b) && ob.default_head is Ok
        && (ob.pulls matches Ok(pulls) && exists|j: int|
            #![auto]
            0 <= j < pulls@.len() && pulls@[j].branch@ == b@ && (pulls@[j].head matches Ok(Some(c))
                && c.sha@ == row.sha@ && c.timestamp == row.created))))
}

/// Whether everything this observation saw already has a row: the observed
/// default head, and, when the default branch could be read at all, each
/// observed pull head.
pub open spec fn ob_satisfied(ob: ProjectObs, deployments: Seq<DeploymentRow>) -> bool {
    &&& (ob.default_head matches Ok(Some(c)) ==> sha_exists_in(deployments, c.sha@))
    &&& (ob.default_head is Ok ==> (ob.pulls matches Ok(pulls) ==> forall|j: int|
        0 <= j < pulls@.len() ==> (#[trigger] pulls@[j].head matches Ok(Some(c)) ==> sha_exists_in(
            deployments,
            c.sha@,
        ))))
}

/// A satisfied observation stays satisfied when rows are only added.
proof fn lemma_ob_satisfied_grow(
    ob: ProjectObs,
    d1: Seq<DeploymentRow>,
    d2: Seq<DeploymentRow>,
)
    requires
        ob_satisfied(ob, d1),
        d2.len() >= d1.len(),
        d2.take(d1.len() as int) == d1,
    ensures
        ob_satisfied(ob, d2),
{
    let ghost dh = ob.default_head;
    match dh {
        Ok(Some(c)) => {
            let w = choose|w: int| 0 <= w < d1.len() && d1[w].sha@ == c.sha@;
            assert(d2.take(d1.len() as int)[w] == d1[w]);
            assert(d2[w].sha@ == c.sha@);
        },
        _ => {},
    }
    if ob.default_head is Ok {
        let ghost ps = ob.pulls;
        match ps {
            Ok(pulls) => {
                assert forall|j: int|
                    0 <= j < pulls@.len() implies (#[trigger] pulls@[j].head matches Ok(Some(c))
                    ==> sha_exists_in(d2, c.sha@)) by {
                    match pulls@[j].head {
                        Ok(Some(c)) => {
                            let w = choose|w: int| 0 <= w < d1.len() && d1[w].sha@ == c.sha@;
                            assert(d2.take(d1.len() as int)[w] == d1[w]);
                            assert(d2[w].sha@ == c.sha@);
                        },
                        _ => {},
                    }
                }
            },
            _ => {},
        }
    }
}

/// Every row beyond the old length is one some observation asked for, its
/// sha was new to the store, and no sha repeats among the added rows.
pub open spec fn rows_sound(
    old_deps: Seq<DeploymentRow>,
    deps: Seq<DeploymentRow>,
    obs: Seq<ProjectObs>,
    upto: int,
) -> bool {
    &&& forall|k: int|
        old_deps.len() <= k < deps.len() ==> (exists|i2: int|
            #![auto]
            0 <= i2 < upto && row_from_ob(deps[k], obs[i2])) && !sha_exists_in(
            old_deps,
            #[trigger] deps[k].sha@,
        )
    &&& forall|k1: int, k2: int|
        old_deps.len() <= k1 < k2 < deps.len() ==> deps[k1].sha@ != deps[k2].sha@
}

/// Inserts the observed commit as a deployment row unless some row already
/// carries its sha.
fn add_deployment_if_missing(store: &mut Store, ins: InsertDeployment) -> (added: bool)
    requires
        store_wf(*old(store)),
        old(store).next_deployment_id <= i64::MAX - 100001,
    ensures
        store_wf(*final(store)),
        final(store).projects == old(store).projects,
        final(store).next_project_id == old(store).next_project_id,
        sha_exists_in(final(store).deployments@, ins.sha@),
        added == !sha_exists_in(old(store).deployments@, ins.sha@),
        !added ==> *final(store) == *old(store),
        added ==> final(store).deployments@.len() == old(store).deployments@.len() + 1
            && final(store).deployments@.drop_last() == old(store).deployments@ && ({
            let row = final(store).deployments@.last();
            row.project == ins.project && row.sha@ == ins.sha@ && row.branch == ins.branch
                && row.created == ins.timestamp && row.env@ == ins.env@ && row.build_started is None
                && row.build_finished is None && row.result is None
        }) && final(store).next_deployment_id == old(store).next_deployment_id + 1,
{
    if store.hash_exists(ins.sha.as_str()) {
        return false;
    }
    let ghost sha_view = ins.sha@;
    match store.insert_deployment(ins) {
        Ok(_) => {
            proof {
                let deps = final(store).deployments@;
                assert(deps[deps.len() - 1].sha@ == sha_view);
            }
            true
        },
        Err(_) => {
            proof {
                assert(false);
            }
            true
        },
    }
}

/// Reconciles one project: the default-branch head first, then every open
/// pull request, each insertion guarded by `hash_exists`. A missing
/// repository or branch skips what it affects; any other source-host error
/// aborts, and the answer says so.
pub fn sync_project(store: &mut Store, ob: &ProjectObs) -> (aborted: bool)
    requires
        store_wf(*old(store)),
        old(store).next_deployment_id + obs_weight(*ob) <= i64::MAX - 100001,
    ensures
        store_wf(*final(store)),
        final(store).projects == old(store).projects,
        final(store).next_project_id == old(store).next_project_id,
        final(store).deployments@.len() >= old(store).deployments@.len(),
        final(store).deployments@.take(old(store).deployments@.len() as int) == old(store).deployments@,
        final(store).next_deployment_id - old(store).next_deployment_id == final(store).deployments@.len() - old(store).deployments@.len(),
        final(store).deployments@.len() - old(store).deployments@.len() <= obs_weight(*ob),
        forall|k: int|
            old(store).deployments@.len() <= k < final(store).deployments@.len()
                ==> row_from_ob(#[trigger] final(store).deployments@[k], *ob) && !sha_exists_in(
                old(store).deployments@,
                final(store).deployments@[k].sha@,
            ),
        forall|k1: int, k2: int|
            old(store).deployments@.len() <= k1 < k2 < final(store).deployments@.len()
                ==> final(store).deployments@[k1].sha@ != final(store).deployments@[k2].sha@,
        aborted == spec_project_aborts(*ob),
        !aborted ==> ob_satisfied(*ob, final(store).deployments@),
{
    let ghost old_store = *old(store);
    match &ob.default_head {
        Err(e) => {
            match e {
                SourceErr::NotFound => {
                    proof {
                        assert(store.deployments@.take(store.deployments@.len() as int)
                            =~= store.deployments@);
                    }
                    return false;
                },
                _ => {
                    proof {
                        assert(store.deployments@.take(store.deployments@.len() as int)
                            =~= store.deployments@);
                    }
                    return true;
                },
            }
        },
        Ok(None) => {},
        Ok(Some(commit)) => {
            let ins = InsertDeployment {
                env: ob.env.clone(),
                sha: commit.sha.clone(),
                timestamp: commit.timestamp,
                branch: None,
                project: ob.project_id,
            };
            add_deployment_if_missing(store, ins);
            proof {
                assert(store.deployments@.take(old_store.deployments@.len() as int)
                    =~= old_store.deployments@);
            }
        },
    }
    let pulls = match &ob.pulls {
        Err(e) => {
            match e {
                SourceErr::NotFound => {
                    return false;
                },
                _ => {
                    return true;
                },
            }
        },
        Ok(pulls) => pulls,
    };
    let n = pulls.len();
    let mut j: usize = 0;
    while j < n
        invariant
            0 <= j <= n,
            n == pulls@.len(),
            old_store == *old(store),
            ob.pulls == Ok::<Vec<BranchObs>, SourceErr>(*pulls),
            ob.default_head is Ok,
            store_wf(*store),
            store_wf(old_store),
            old_store.next_deployment_id + obs_weight(*ob) <= i64::MAX - 100001,
            store.projects == old_store.projects,
            store.next_project_id == old_store.next_project_id,
            store.deployments@.len() >= old_store.deployments@.len(),
            store.deployments@.take(old_store.deployments@.len() as int)
                == old_store.deployments@,
            store.next_deployment_id - old_store.next_deployment_id == store.deployments@.len()
                - old_store.deployments@.len(),
            store.deployments@.len() - old_store.deployments@.len() <= 1 + j,
            forall|k: int|
                old_store.deployments@.len() <= k < store.deployments@.len() ==> row_from_ob(
                    #[trigger] store.deployments@[k],
                    *ob,
                ) && !sha_exists_in(old_store.deployments@, store.deployments@[k].sha@),
            forall|k1: int, k2: int|
                old_store.deployments@.len() <= k1 < k2 < store.deployments@.len()
                    ==> store.deployments@[k1].sha@ != store.deployments@[k2].sha@,
            ob.default_head matches Ok(Some(c)) ==> sha_exists_in(store.deployments@, c.sha@),
            forall|j2: int|
                0 <= j2 < j ==> (#[trigger] pulls@[j2].head matches Ok(Some(c)) ==> sha_exists_in(
                    store.deployments@,
                    c.sha@,
                )),
            forall|j2: int| 0 <= j2 < j ==> !head_aborts(#[trigger] pulls@[j2].head),
        decreases n - j,
    {
        let ghost store_before = *store;
        match &pulls[j].head {
            Err(e) => {
                match e {
                    SourceErr::NotFound => {},
                    _ => {
                        proof {
                            assert(head_aborts(pulls@[j as int].head));
                        }
                        return true;
                    },
                }
            },
            Ok(None) => {},
            Ok(Some(commit)) => {
                let ins = InsertDeployment {
                    env: ob.env.clone(),
                    sha: commit.sha.clone(),
                    timestamp: commit.timestamp,
                    branch: Some(pulls[j].branch.clone()),
                    project: ob.project_id,
                };
                let added = add_deployment_if_missing(store, ins);
                proof {
                    let oldn = old_store.deployments@.len() as int;
                    let beforelen = store_before.deployments@.len() as int;
                    assert(store.deployments@.take(oldn) =~= store_before.deployments@.take(oldn));
                    if added {
                        assert forall|k: int| 0 <= k < beforelen implies store.deployments@[k]
                            == store_before.deployments@[k] by {
                            assert(store.deployments@.drop_last()[k]
                                == store_before.deployments@[k]);
                        }
                        let row = store.deployments@.last();
                        assert(pulls@[j as int].branch@ == row.branch->Some_0@);
                        assert(row_from_ob(row, *ob));
                        if sha_exists_in(old_store.deployments@, row.sha@) {
                            let w = choose|w: int|
                                0 <= w < old_store.deployments@.len()
                                    && old_store.deployments@[w].sha@ == row.sha@;
                            assert(store_before.deployments@.take(oldn)[w]
                                == old_store.deployments@[w]);
                            assert(store_before.deployments@[w].sha@ == row.sha@);
                            assert(false);
                        }
                        assert forall|k1: int, k2: int|
                            oldn <= k1 < k2 < store.deployments@.len() implies store.deployments@[k1].sha@
                            != store.deployments@[k2].sha@ by {
                            if k2 == store.deployments@.len() - 1 {
                                assert(store.deployments@[k1] == store_before.deployments@[k1]);
                                assert(!sha_exists_in(store_before.deployments@, row.sha@));
                            } else {
                                assert(store.deployments@[k1] == store_before.deployments@[k1]);
                                assert(store.deployments@[k2] == store_before.deployments@[k2]);
                            }
                        }
                        assert forall|k: int|
                            oldn <= k < store.deployments@.len() implies row_from_ob(
                            #[trigger] store.deployments@[k],
                            *ob,
                        ) && !sha_exists_in(old_store.deployments@, store.deployments@[k].sha@) by {
                            if k < beforelen {
                                assert(store.deployments@[k] == store_before.deployments@[k]);
                            }
                        }
                    }
                }
            },
        }
        proof {
            assert(store.deployments@.take(store_before.deployments@.len() as int)
                =~= store_before.deployments@);
            assert forall|k2: int|
                0 <= k2 < j + 1 implies (#[trigger] pulls@[k2].head matches Ok(Some(c))
                ==> sha_exists_in(store.deployments@, c.sha@)) by {
                if k2 < j {
                    match pulls@[k2].head {
                        Ok(Some(c)) => {
                            let w = choose|w: int|
                                0 <= w < store_before.deployments@.len()
                                    && store_before.deployments@[w].sha@ == c.sha@;
                            assert(store.deployments@.take(
                                store_before.deployments@.len() as int,
                            )[w] == store_before.deployments@[w]);
                            assert(store.deployments@[w].sha@ == c.sha@);
                        },
                        _ => {},
                    }
                }
            }
            let ghost dh = ob.default_head;
            match dh {
                Ok(Some(c)) => {
                    let w = choose|w: int|
                        0 <= w < store_before.deployments@.len()
                            && store_before.deployments@[w].sha@ == c.sha@;
                    assert(store.deployments@.take(store_before.deployments@.len() as int)[w]
                        == store_before.deployments@[w]);
                    assert(store.deployments@[w].sha@ == c.sha@);
                },
                _ => {},
            }
        }
        j = j + 1;
    }
    false
}

proof fn lemma_obs_total_step(obs: Seq<ProjectObs>, i: int)
    requires
        0 <= i < obs.len(),
    ensures
        obs_total(obs.take(i + 1)) == obs_total(obs.take(i)) + obs_weight(obs[i]),
{
    assert(obs.take(i + 1).drop_last() =~= obs.take(i));
    assert(obs.take(i + 1).last() == obs[i]);
}

proof fn lemma_obs_total_take_le(obs: Seq<ProjectObs>, k: int)
    requires
        0 <= k <= obs.len(),
    ensures
        obs_total(obs.take(k)) <= obs_total(obs),
    decreases obs.len() - k,
{
    if k == obs.len() {
        assert(obs.take(k) =~= obs);
    } else {
        lemma_obs_total_step(obs, k);
        lemma_obs_total_take_le(obs, k + 1);
    }
}

/// One watcher cycle: reconciles every project in turn, aborting the whole
/// cycle on the first transient source-host error. When the cycle runs
/// through, every commit it observed has a row, exactly the new commits
/// got new rows, and a cycle that observes nothing new changes nothing.
pub fn watch_cycle(store: &mut Store, obs: &Vec<ProjectObs>) -> (aborted: bool)
    requires
        store_wf(*old(store)),
        old(store).next_deployment_id + obs_total(obs@) <= i64::MAX - 100001,
    ensures
        store_wf(*final(store)),
        final(store).projects == old(store).projects,
        final(store).next_project_id == old(store).next_project_id,
        final(store).deployments@.len() >= old(store).deployments@.len(),
        final(store).deployments@.take(old(store).deployments@.len() as int) == old(store).deployments@,
        final(store).next_deployment_id - old(store).next_deployment_id == final(store).deployments@.len() - old(store).deployments@.len(),
        final(store).deployments@.len() - old(store).deployments@.len() <= obs_total(obs@),
        rows_sound(
            old(store).deployments@,
            final(store).deployments@,
            obs@,
            obs@.len() as int,
        ),
        aborted == (exists|i: int|
            #![auto]
            0 <= i < obs@.len() && spec_project_aborts(obs@[i])),
        aborted ==> exists|i: int|
            #![auto]
            0 <= i < obs@.len() && spec_project_aborts(obs@[i]) && (forall|j: int|
                0 <= j < i ==> !spec_project_aborts(#[trigger] obs@[j])) && rows_sound(
                old(store).deployments@,
                final(store).deployments@,
                obs@,
                i + 1,
            ),
        !aborted ==> forall|i: int|
            0 <= i < obs@.len() ==> ob_satisfied(#[trigger] obs@[i], final(store).deployments@),
{
    let ghost old_store = *old(store);
    let n = obs.len();
    let mut i: usize = 0;
    proof {
        assert(store.deployments@.take(store.deployments@.len() as int) =~= store.deployments@);
        assert(obs@.take(0) =~= Seq::<ProjectObs>::empty());
    }
    while i < n
        invariant
            0 <= i <= n,
            n == obs@.len(),
            old_store == *old(store),
            store_wf(*store),
            store_wf(old_store),
            old_store.next_deployment_id + obs_total(obs@) <= i64::MAX - 100001,
            store.projects == old_store.projects,
            store.next_project_id == old_store.next_project_id,
            store.deployments@.len() >= old_store.deployments@.len(),
            store.deployments@.take(old_store.deployments@.len() as int)
                == old_store.deployments@,
            store.next_deployment_id - old_store.next_deployment_id == store.deployments@.len()
                - old_store.deployments@.len(),
            store.deployments@.len() - old_store.deployments@.len() <= obs_total(
                obs@.take(i as int),
            ),
            rows_sound(old_store.deployments@, store.deployments@, obs@, i as int),
            forall|i2: int| 0 <= i2 < i ==> !spec_project_aborts(#[trigger] obs@[i2]),
            forall|i2: int|
                0 <= i2 < i ==> ob_satisfied(#[trigger] obs@[i2], store.deployments@),
        decreases n - i,
    {
        let ghost store_before = *store;
        proof {
            lemma_obs_total_step(obs@, i as int);
            lemma_obs_total_take_le(obs@, i + 1);
        }
        let aborted_here = sync_project(store, &obs[i]);
        proof {
            let oldn = old_store.deployments@.len() as int;
            let beforelen = store_before.deployments@.len() as int;
            assert(store.deployments@.take(beforelen).take(oldn) =~= store.deployments@.take(
                oldn,
            ));
            assert(store.deployments@.take(oldn) =~= old_store.deployments@);
            assert forall|k: int| 0 <= k < beforelen implies store.deployments@[k]
                == store_before.deployments@[k] by {
                assert(store.deployments@.take(beforelen)[k] == store_before.deployments@[k]);
            }
            assert forall|k: int|
                oldn <= k < store.deployments@.len() implies (exists|i2: int|
                #![auto]
                0 <= i2 < i + 1 && row_from_ob(store.deployments@[k], obs@[i2]))
                && !sha_exists_in(old_store.deployments@, #[trigger] store.deployments@[k].sha@) by {
                if k < beforelen {
                    assert(store.deployments@[k] == store_before.deployments@[k]);
                    assert(store_before.deployments@[k].sha@ == store.deployments@[k].sha@);
                    assert((exists|i2: int|
                        #![auto]
                        0 <= i2 < i && row_from_ob(store_before.deployments@[k], obs@[i2]))
                        && !sha_exists_in(
                        old_store.deployments@,
                        store_before.deployments@[k].sha@,
                    ));
                    let i2 = choose|i2: int|
                        #![auto]
                        0 <= i2 < i && row_from_ob(store_before.deployments@[k], obs@[i2]);
                    assert(row_from_ob(store.deployments@[k], obs@[i2]));
                } else {
                    assert(row_from_ob(store.deployments@[k], obs@[i as int]));
                    if sha_exists_in(old_store.deployments@, store.deployments@[k].sha@) {
                        let w = choose|w: int|
                            0 <= w < old_store.deployments@.len() && old_store.deployments@[w].sha@
                                == store.deployments@[k].sha@;
                        assert(store_before.deployments@.take(oldn)[w]
                            == old_store.deployments@[w]);
                        assert(sha_exists_in(
                            store_before.deployments@,
                            store.deployments@[k].sha@,
                        ));
                    }
                }
            }
            assert forall|k1: int, k2: int|
                oldn <= k1 < k2 < store.deployments@.len() implies store.deployments@[k1].sha@
                != store.deployments@[k2].sha@ by {
                if k2 < beforelen {
                    assert(store.deployments@[k1] == store_before.deployments@[k1]);
                    assert(store.deployments@[k2] == store_before.deployments@[k2]);
                    assert(store_before.deployments@[k1].sha@ != store_before.deployments@[k2].sha@);
                } else if k1 < beforelen {
                    assert(store.deployments@[k1] == store_before.deployments@[k1]);
                    assert(row_from_ob(store.deployments@[k2], obs@[i as int]));
                    assert(!sha_exists_in(store_before.deployments@, store.deployments@[k2].sha@));
                    if store.deployments@[k1].sha@ == store.deployments@[k2].sha@ {
                        assert(store_before.deployments@[k1].sha@ == store.deployments@[k2].sha@);
                        assert(sha_exists_in(store_before.deployments@, store.deployments@[k2].sha@));
                    }
                }
            }
            assert(rows_sound(old_store.deployments@, store.deployments@, obs@, i + 1));
            assert forall|i2: int| 0 <= i2 < i implies ob_satisfied(
                #[trigger] obs@[i2],
                store.deployments@,
            ) by {
                lemma_ob_satisfied_grow(obs@[i2], store_before.deployments@, store.deployments@);
            }
        }
        if aborted_here {
            proof {
                assert(spec_project_aborts(obs@[i as int]));
                assert(store.deployments@.len() - old_store.deployments@.len() <= obs_total(
                    obs@.take(i + 1),
                ));
                assert(obs_total(obs@.take(i + 1)) <= obs_total(obs@));
            }
            return true;
        }
        i = i + 1;
    }
    proof {
        assert(obs@.take(n as int) =~= obs@);
    }
    false
}

/// A cycle never adds rows for observations past the first aborting one:
/// what `watch_cycle` reports on abort bounds every added row to the
/// projects reconciled before and including the aborting project.
pub proof fn lemma_abort_stops_insertion(
    old_deps: Seq<DeploymentRow>,
    new_deps: Seq<DeploymentRow>,
    obs: Seq<ProjectObs>,
    upto: int,
    k: int,
)
    requires
        0 <= upto <= obs.len(),
        rows_sound(old_deps, new_deps, obs, upto),
        old_deps.len() <= k < new_deps.len(),
    ensures
        exists|i: int| #![auto] 0 <= i < upto && row_from_ob(new_deps[k], obs[i]),
{
    assert(!sha_exists_in(old_deps, new_deps[k].sha@) && (exists|i: int|
        #![auto]
        0 <= i < upto && row_from_ob(new_deps[k], obs[i])));
}

/// Cold start: a cycle over one project whose default branch shows one new
/// commit and which has no open pull requests appends exactly one row, a
/// production candidate carrying that commit.
pub proof fn lemma_cold_start(
    old_deps: Seq<DeploymentRow>,
    new_deps: Seq<DeploymentRow>,
    obs: Seq<ProjectObs>,
)
    requires
        obs.len() == 1,
        obs[0].default_head matches Ok(Some(c)) && !sha_exists_in(old_deps, c.sha@),
        obs[0].pulls matches Ok(pulls) && pulls@.len() == 0,
        new_deps.len() >= old_deps.len(),
        new_deps.take(old_deps.len() as int) == old_deps,
        new_deps.len() - old_deps.len() <= obs_total(obs),
        rows_sound(old_deps, new_deps, obs, 1),
        ob_satisfied(obs[0], new_deps),
    ensures
        new_deps.len() == old_deps.len() + 1,
        new_deps.drop_last() == old_deps,
        obs[0].default_head matches Ok(Some(c)) && ({
            let row = new_deps.last();
            row.project == obs[0].project_id && row.sha@ == c.sha@ && row.branch is None
                && row.created == c.timestamp && row.env@ == obs[0].env@ && row.result is None
                && row.build_started is None && row.build_finished is None
        }),
{
    let ghost dh = obs[0].default_head;
    let ghost ps = obs[0].pulls;
    let c = dh->Ok_0->Some_0;
    assert(obs_total(obs) == 1) by {
        assert(obs.drop_last() =~= Seq::<ProjectObs>::empty());
        assert(obs_total(Seq::<ProjectObs>::empty()) == 0);
        assert(obs.last() == obs[0]);
        assert(obs_weight(obs[0]) == 1);
    }
    assert(sha_exists_in(new_deps, c.sha@));
    let w = choose|w: int| 0 <= w < new_deps.len() && new_deps[w].sha@ == c.sha@;
    if w < old_deps.len() {
        assert(new_deps.take(old_deps.len() as int)[w] == new_deps[w]);
        assert(old_deps[w].sha@ == c.sha@);
    }
    assert(new_deps.len() == old_deps.len() + 1);
    assert(new_deps.drop_last() =~= old_deps);
    let k = old_deps.len() as int;
    assert(!sha_exists_in(old_deps, new_deps[k].sha@) && (exists|i2: int|
        #![auto]
        0 <= i2 < 1 && row_from_ob(new_deps[k], obs[i2])));
    assert(row_from_ob(new_deps[k], obs[0]));
    let row = new_deps[k];
    match row.branch {
        Some(b) => {
            match ps {
                Ok(pulls) => {
                    assert(!(exists|j: int|
                        #![auto]
                        0 <= j < pulls@.len() && pulls@[j].branch@ == b@ && (pulls@[j].head
                            matches Ok(Some(c2)) && c2.sha@ == row.sha@ && c2.timestamp
                            == row.created)));
                },
                _ => {},
            }
        },
        None => {},
    }
}

/// Pull-request preview: a cycle over one project whose default head is
/// already recorded and which shows one open pull request with a new head
/// commit appends exactly one row, carrying the pull's branch and commit.
pub proof fn lemma_pull_preview(
    old_deps: Seq<DeploymentRow>,
    new_deps: Seq<DeploymentRow>,
    obs: Seq<ProjectObs>,
)
    requires
        obs.len() == 1,
        obs[0].default_head matches Ok(Some(c)) && sha_exists_in(old_deps, c.sha@),
        obs[0].pulls matches Ok(pulls) && pulls@.len() == 1 && (pulls@[0].head matches Ok(Some(h))
            && !sha_exists_in(old_deps, h.sha@)),
        new_deps.len() >= old_deps.len(),
        new_deps.take(old_deps.len() as int) == old_deps,
        rows_sound(old_deps, new_deps, obs, 1),
        ob_satisfied(obs[0], new_deps),
    ensures
        new_deps.len() == old_deps.len() + 1,
        new_deps.drop_last() == old_deps,
        obs[0].pulls matches Ok(pulls) && (pulls@[0].head matches Ok(Some(h)) && ({
            let row = new_deps.last();
            row.project == obs[0].project_id && row.sha@ == h.sha@ && (row.branch matches Some(b)
                && b@ == pulls@[0].branch@) && row.created == h.timestamp && row.env@
                == obs[0].env@ && row.result is None
        })),
{
    let ghost dh = obs[0].default_head;
    let ghost ps = obs[0].pulls;
    let c = dh->Ok_0->Some_0;
    let pulls = ps->Ok_0;
    let h = pulls@[0].head->Ok_0->Some_0;
    assert(sha_exists_in(new_deps, h.sha@));
    let w = choose|w: int| 0 <= w < new_deps.len() && new_deps[w].sha@ == h.sha@;
    if w < old_deps.len() {
        assert(new_deps.take(old_deps.len() as int)[w] == new_deps[w]);
        assert(old_deps[w].sha@ == h.sha@);
    }
    assert(new_deps.len() > old_deps.len());
    assert forall|k: int| old_deps.len() <= k < new_deps.len() implies new_deps[k].sha@
        == h.sha@ by {
        assert(!sha_exists_in(old_deps, new_deps[k].sha@) && (exists|i2: int|
            #![auto]
            0 <= i2 < 1 && row_from_ob(new_deps[k], obs[i2])));
        assert(row_from_ob(new_deps[k], obs[0]));
        let row = new_deps[k];
        match row.branch {
            None => {
                assert(row.sha@ == c.sha@);
                assert(sha_exists_in(old_deps, row.sha@));
            },
            Some(b) => {
                let j = choose|j: int|
                    #![auto]
                    0 <= j < pulls@.len() && pulls@[j].branch@ == b@ && (pulls@[j].head matches Ok(
                        Some(c2),
                    ) && c2.sha@ == row.sha@ && c2.timestamp == row.created);
                assert(j == 0);
            },
        }
    }
    if new_deps.len() > old_deps.len() + 1 {
        let k1 = old_deps.len() as int;
        assert(new_deps[k1].sha@ != new_deps[k1 + 1].sha@);
        assert(false);
    }
    assert(new_deps.drop_last() =~= old_deps);
    let k = old_deps.len() as int;
    assert(row_from_ob(new_deps[k], obs[0]));
    let row = new_deps[k];
    match row.branch {
        None => {
            assert(sha_exists_in(old_deps, row.sha@));
        },
        Some(b) => {
            let j = choose|j: int|
                #![auto]
                0 <= j < pulls@.len() && pulls@[j].branch@ == b@ && (pulls@[j].head matches Ok(
                    Some(c2),
                ) && c2.sha@ == row.sha@ && c2.timestamp == row.created);
            assert(j == 0);
        },
    }
}

/// Idempotent insertion: a cycle whose every observed commit already has a
/// row inserts nothing, so repeated cycles over a static upstream leave
/// exactly one row per distinct observed sha.
pub proof fn lemma_cycle_idempotent(
    old_deps: Seq<DeploymentRow>,
    new_deps: Seq<DeploymentRow>,
    obs: Seq<ProjectObs>,
)
    requires
        new_deps.len() >= old_deps.len(),
        new_deps.take(old_deps.len() as int) == old_deps,
        rows_sound(old_deps, new_deps, obs, obs.len() as int),
        forall|i: int| 0 <= i < obs.len() ==> ob_satisfied(#[trigger] obs[i], old_deps),
    ensures
        new_deps == old_deps,
{
    if new_deps.len() > old_deps.len() {
        let k = old_deps.len() as int;
        let row = new_deps[k];
        assert((exists|i: int|
            #![auto]
            0 <= i < obs.len() && row_from_ob(new_deps[k], obs[i])) && !sha_exists_in(
            old_deps,
            new_deps[k].sha@,
        ));
        let i = choose|i: int| #![auto] 0 <= i < obs.len() && row_from_ob(new_deps[k], obs[i]);
        let ob = obs[i];
        assert(row_from_ob(row, ob));
        if row.branch is None {
            assert(sha_exists_in(old_deps, row.sha@));
        } else {
            let ghost ps = ob.pulls;
            match ps {
                Ok(pulls) => {
                    let j = choose|j: int|
                        #![auto]
                        0 <= j < pulls@.len() && pulls@[j].branch@ == row.branch->Some_0@ && (
                        pulls@[j].head matches Ok(Some(c)) && c.sha@ == row.sha@ && c.timestamp
                            == row.created);
                    assert(pulls@[j].head matches Ok(Some(c)) && c.sha@ == row.sha@);
                    assert(sha_exists_in(old_deps, row.sha@));
                },
                _ => {
                    assert(false);
                },
            }
        }
        assert(false);
    }
    assert(new_deps =~= old_deps);
}

} // verus!
