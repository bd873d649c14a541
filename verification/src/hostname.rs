use vstd::prelude::*;

verus! {

/// The app hostname of a deployment: `<url_id>-<project>.<box_domain>`.
pub open spec fn app_hostname_spec(url_id: Seq<char>, project: Seq<char>, box_domain: Seq<char>) -> Seq<char> {
    url_id + seq!['-'] + project + seq!['.'] + box_domain
}

/// The db hostname of a deployment: `<url_id>-db-<project>.<box_domain>`.
pub open spec fn db_hostname_spec(url_id: Seq<char>, project: Seq<char>, box_domain: Seq<char>) -> Seq<char> {
    url_id + seq!['-', 'd', 'b', '-'] + project + seq!['.'] + box_domain
}

/// The production hostname of a project: `<project>.<box_domain>`.
pub open spec fn prod_hostname_spec(project: Seq<char>, box_domain: Seq<char>) -> Seq<char> {
    project + seq!['.'] + box_domain
}

/// Builds `<url_id>-<project>.<box_domain>`.
pub fn get_app_hostname(url_id: &str, box_domain: &str, project_name: &str) -> (r: String)
    ensures
        r@ == app_hostname_spec(url_id@, project_name@, box_domain@),
{
    proof {
        reveal_strlit("-");
        reveal_strlit(".");
        assert("-"@ =~= seq!['-']);
        assert("."@ =~= seq!['.']);
    }
    let mut out = url_id.to_owned();
    out.append("-");
    out.append(project_name);
    out.append(".");
    out.append(box_domain);
    proof {
        assert(out@ =~= app_hostname_spec(url_id@, project_name@, box_domain@));
    }
    out
}

/// Builds `<url_id>-db-<project>.<box_domain>`.
pub fn get_db_hostname(url_id: &str, box_domain: &str, project_name: &str) -> (r: String)
    ensures
        r@ == db_hostname_spec(url_id@, project_name@, box_domain@),
{
    proof {
        reveal_strlit("-db-");
        reveal_strlit(".");
        assert("-db-"@ =~= seq!['-', 'd', 'b', '-']);
        assert("."@ =~= seq!['.']);
    }
    let mut out = url_id.to_owned();
    out.append("-db-");
    out.append(project_name);
    out.append(".");
    out.append(box_domain);
    proof {
        assert(out@ =~= db_hostname_spec(url_id@, project_name@, box_domain@));
    }
    out
}

/// Builds `<project>.<box_domain>`.
pub fn get_prod_hostname(box_domain: &str, project_name: &str) -> (r: String)
    ensures
        r@ == prod_hostname_spec(project_name@, box_domain@),
{
    proof {
        reveal_strlit(".");
        assert("."@ =~= seq!['.']);
    }
    let mut out = project_name.to_owned();
    out.append(".");
    out.append(box_domain);
    proof {
        assert(out@ =~= prod_hostname_spec(project_name@, box_domain@));
    }
    out
}

/// A url_id is URL safe for hostname minting: non-empty and free of `'-'`,
/// so it is exactly the text before the first `'-'` of the hostnames minted
/// from it.
pub open spec fn url_id_wf(u: Seq<char>) -> bool {
    u.len() > 0 && !u.contains('-')
}

proof fn lemma_dash_prefix_injective(u1: Seq<char>, r1: Seq<char>, u2: Seq<char>, r2: Seq<char>)
    requires
        url_id_wf(u1),
        url_id_wf(u2),
        u1 + seq!['-'] + r1 == u2 + seq!['-'] + r2,
    ensures
        u1 == u2,
        r1 == r2,
{
    let s = u1 + seq!['-'] + r1;
    if u1.len() < u2.len() {
        assert(s[u1.len() as int] == '-');
        assert(s[u1.len() as int] == u2[u1.len() as int]);
        assert(u2.contains('-'));
    } else if u2.len() < u1.len() {
        assert(s[u2.len() as int] == '-');
        assert(s[u2.len() as int] == u1[u2.len() as int]);
        assert(u1.contains('-'));
    }
    assert(u1.len() == u2.len());
    assert(u1 =~= u2) by {
        assert(forall|i: int|
            0 <= i < u1.len() ==> u1[i] == s[i] && u2[i] == s[i]);
    }
    assert(seq!['-'].len() == 1);
    assert((u1 + seq!['-'] + r1).len() == u1.len() + 1 + r1.len());
    assert((u2 + seq!['-'] + r2).len() == u2.len() + 1 + r2.len());
    assert(r1.len() == r2.len());
    assert forall|i: int| 0 <= i < r1.len() implies r1[i] == r2[i] by {
        assert((u1 + seq!['-'] + r1)[u1.len() + 1 + i] == r1[i]);
        assert((u2 + seq!['-'] + r2)[u2.len() + 1 + i] == r2[i]);
    }
    assert(r1 =~= r2);
}

/// Hostname uniqueness across deployments: two live deployments with
/// different well-formed url_ids get different app hostnames and different
/// db hostnames, whatever their projects are; and a deployment's app and db
/// hostnames never coincide.
pub proof fn lemma_hostnames_unique(
    u1: Seq<char>,
    p1: Seq<char>,
    u2: Seq<char>,
    p2: Seq<char>,
    box_domain: Seq<char>,
)
    requires
        url_id_wf(u1),
        url_id_wf(u2),
        u1 != u2,
    ensures
        app_hostname_spec(u1, p1, box_domain) != app_hostname_spec(u2, p2, box_domain),
        db_hostname_spec(u1, p1, box_domain) != db_hostname_spec(u2, p2, box_domain),
        app_hostname_spec(u1, p1, box_domain) != db_hostname_spec(u1, p1, box_domain),
{
    if app_hostname_spec(u1, p1, box_domain) == app_hostname_spec(u2, p2, box_domain) {
        assert(u1 + seq!['-'] + (p1 + seq!['.'] + box_domain) =~= app_hostname_spec(
            u1,
            p1,
            box_domain,
        ));
        assert(u2 + seq!['-'] + (p2 + seq!['.'] + box_domain) =~= app_hostname_spec(
            u2,
            p2,
            box_domain,
        ));
        lemma_dash_prefix_injective(
            u1,
            p1 + seq!['.'] + box_domain,
            u2,
            p2 + seq!['.'] + box_domain,
        );
    }
    if db_hostname_spec(u1, p1, box_domain) == db_hostname_spec(u2, p2, box_domain) {
        assert(u1 + seq!['-'] + (seq!['d', 'b', '-'] + p1 + seq!['.'] + box_domain)
            =~= db_hostname_spec(u1, p1, box_domain));
        assert(u2 + seq!['-'] + (seq!['d', 'b', '-'] + p2 + seq!['.'] + box_domain)
            =~= db_hostname_spec(u2, p2, box_domain));
        lemma_dash_prefix_injective(
            u1,
            seq!['d', 'b', '-'] + p1 + seq!['.'] + box_domain,
            u2,
            seq!['d', 'b', '-'] + p2 + seq!['.'] + box_domain,
        );
    }
    assert(app_hostname_spec(u1, p1, box_domain).len() + 3 == db_hostname_spec(
        u1,
        p1,
        box_domain,
    ).len());
}

} // verus!
