//! Teams of the logged-in user.

use vstd::prelude::*;
use vstd::string::StringExecFns;

use crate::client::MattermostClient;

verus! {

/// A team, as the server describes it.
#[derive(Debug, Clone)]
pub struct Team {
    pub allow_open_invite: bool,
    pub allowed_domains: String,
    pub cloud_limits_archived: bool,
    pub company_name: String,
    pub create_at: i64,
    pub delete_at: i64,
    pub description: String,
    pub display_name: String,
    pub email: String,
    pub group_constrained: bool,
    pub id: String,
    pub invite_id: String,
    pub last_team_icon_update: i64,
    pub name: String,
    pub policy_id: Option<String>,
    pub scheme_id: String,
    pub team_type: String,
    pub update_at: i64,
}

/// Why the teams could not be loaded. A status code is held as its number.
#[derive(Debug)]
pub enum TeamLoadError {
    RequestError(reqwest::Error),
    LoadTeamsError(String),
    NoTeams,
    ResponseError(u16),
}

impl From<reqwest::Error> for TeamLoadError {
    fn from(e: reqwest::Error) -> (r: Self) {
        TeamLoadError::RequestError(e)
    }
}

impl vstd::std_specs::convert::FromSpecImpl<reqwest::Error> for TeamLoadError {
    open spec fn obeys_from_spec() -> bool {
        true
    }

    open spec fn from_spec(e: reqwest::Error) -> TeamLoadError {
        TeamLoadError::RequestError(e)
    }
}

impl MattermostClient {
    /// The address of the teams of the logged-in user.
    pub fn teams_url(&self) -> (r: String)
        ensures
            r@ == self@.base_url + "/api/v4/users/me/teams"@,
    {
        let mut s = self.base_url.clone();
        s.append("/api/v4/users/me/teams");
        s
    }
}

/// The current team: the first of the loaded teams, or none where loading
/// failed or there are no teams.
pub open spec fn current_team_spec(teams: Result<Vec<Team>, TeamLoadError>) -> Option<Team> {
    match teams {
        Ok(v) => if v@.len() > 0 {
            Some(v@[0])
        } else {
            None
        },
        Err(_) => None,
    }
}

/// Whatever the teams are, the current team is the first one loaded; there
/// is none only where loading failed or no team was loaded.
pub proof fn law_current_team_is_first(teams: Result<Vec<Team>, TeamLoadError>)
    ensures
        match teams {
            Ok(loaded) => if 0 < loaded@.len() {
                current_team_spec(teams) == Some(loaded@[0])
            } else {
                current_team_spec(teams) is None
            },
            Err(_) => current_team_spec(teams) is None,
        },
{
}

/// The current team, from the result of loading the teams.
pub fn current_team(teams: Result<Vec<Team>, TeamLoadError>) -> (r: Option<Team>)
    ensures
        r == current_team_spec(teams),
        match teams {
            Ok(loaded) => if 0 < loaded@.len() {
                r == Some(loaded@[0])
            } else {
                r is None
            },
            Err(_) => r is None,
        },
{
    match teams {
        Ok(mut v) => {
            if v.len() > 0 {
                Some(v.remove(0))
            } else {
                None
            }
        },
        Err(_) => None,
    }
}

} // verus!
