use vstd::prelude::*;

use crate::hostname::app_hostname_spec;
use crate::hostname::db_hostname_spec;
use crate::hostname::get_app_hostname;
use crate::hostname::get_db_hostname;
use crate::hostname::get_prod_hostname;
use crate::hostname::prod_hostname_spec;
use crate::lifecycle::DeploymentHandle;
use crate::status::ContainerState;
use crate::status::Status;
use crate::status::derive_status;
use crate::status::spec_status;
use crate::store::DeploymentRow;

verus! {

/// Prefixes a hostname with the HTTPS scheme, if there is one.
pub fn plus_https(hostname: Option<String>) -> (r: Option<String>)
    ensures
        match hostname {
            Some(h) => r matches Some(u) && u@ == "https://"@ + h@,
            None => r is None,
        },
{
    match hostname {
        Some(h) => {
            let mut out = String::new();
            out.append("https://");
            out.append(h.as_str());
            Some(out)
        },
        None => None,
    }
}

/// One deployment as the management API reports it.
#[derive(Debug)]
pub struct ApiDeployment {
    pub id: i64,
    pub url_id: String,
    pub sha: String,
    pub gitref: String,
    pub url: Option<String>,
    pub target_url: Option<String>,
    pub db_url: Option<String>,
    pub status: Status,
    pub app_container: Option<String>,
    pub created: i64,
    pub build_started: Option<i64>,
    pub build_finished: Option<i64>,
}

/// Assembles the API view of one deployment row. A live deployment reports
/// its derived status and its minted URLs, the production URL only for the
/// project's production deployment; a row the manager has not yet picked up
/// reports the status recorded in the store and no URLs. The gitref is the
/// row's branch, or the repository's default branch for a production
/// candidate. The caller hands in the row's own live handle, whose recorded
/// result agrees with the row's: the manager keeps them in step, since the
/// handle's result is written to the row the moment a build finishes. Under
/// that coupling a failed row reports `Failed` with or without a handle.
/// The container runtime id, when the handle has created a container, comes
/// in as a plain value from the container host.
pub fn api_deployment_view(
    row: &DeploymentRow,
    live: Option<&DeploymentHandle>,
    app_container: Option<String>,
    is_prod: bool,
    box_domain: &str,
    project_name: &str,
    default_branch: &str,
) -> (r: ApiDeployment)
    requires
        live matches Some(h) ==> h.result == row.result,
    ensures
        row.result == Some(crate::status::BuildResult::Failed) ==> r.status == Status::Failed,
        r.id == row.id && r.url_id@ == row.url_id@ && r.sha@ == row.sha@ && r.created
            == row.created && r.build_started == row.build_started && r.build_finished
            == row.build_finished,
        r.gitref@ == match row.branch {
            Some(b) => b@,
            None => default_branch@,
        },
        r.app_container == match live {
            Some(_) => app_container,
            None => None::<String>,
        },
        match live {
            Some(h) => r.status == spec_status(h.container, h.result) && (r.url matches Some(u)
                && u@ == "https://"@ + app_hostname_spec(row.url_id@, project_name@, box_domain@))
                && (r.db_url matches Some(u) && u@ == "https://"@ + db_hostname_spec(
                row.url_id@,
                project_name@,
                box_domain@,
            )) && (if is_prod {
                r.target_url matches Some(u) && u@ == "https://"@ + prod_hostname_spec(
                    project_name@,
                    box_domain@,
                )
            } else {
                r.target_url is None
            }),
            None => r.status == spec_status(ContainerState::Absent, row.result) && r.url is None
                && r.target_url is None && r.db_url is None,
        },
{
    let gitref = match &row.branch {
        Some(b) => b.clone(),
        None => default_branch.to_owned(),
    };
    let (status, url, target_url, db_url, app_container) = match live {
        Some(handle) => {
            let status = derive_status(handle.container, handle.result);
            let url = plus_https(
                Some(get_app_hostname(row.url_id.as_str(), box_domain, project_name)),
            );
            let db_url = plus_https(
                Some(get_db_hostname(row.url_id.as_str(), box_domain, project_name)),
            );
            let target_url = if is_prod {
                plus_https(Some(get_prod_hostname(box_domain, project_name)))
            } else {
                None
            };
            (status, url, target_url, db_url, app_container)
        },
        None => {
            let status = derive_status(ContainerState::Absent, row.result);
            (status, None, None, None, None)
        },
    };
    ApiDeployment {
        id: row.id,
        url_id: row.url_id.clone(),
        sha: row.sha.clone(),
        gitref,
        url,
        target_url,
        db_url,
        status,
        app_container,
        created: row.created,
        build_started: row.build_started,
        build_finished: row.build_finished,
    }
}

} // verus!
