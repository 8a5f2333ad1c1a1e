//! The settings that pick a backend, and the command arguments that the
//! library's operations work from.

use crate::error::AcariError;
use crate::model::Project;
use crate::text::{push_str, same_text};
use vstd::prelude::*;

verus! {

/// Which backend a profile talks to.
#[derive(Debug, Clone, Copy, PartialEq, Eq, Structural)]
pub enum ClientType {
    Mite,
    Everhour,
}

impl Default for ClientType {
    fn default() -> (r: ClientType)
        ensures
            r == ClientType::Mite,
    {
        ClientType::Mite
    }
}

/// A named set of connection settings.
#[derive(Debug, Clone)]
pub struct Profile {
    pub domain: String,
    pub token: String,
    pub client: ClientType,
}

/// The settings: a default connection, named profiles, and how long cached
/// answers stay good, in minutes.
#[derive(Debug, Clone)]
pub struct Config {
    pub domain: String,
    pub token: String,
    pub client: ClientType,
    pub cache_ttl_minutes: u64,
    pub profiles: Vec<(String, Profile)>,
}

/// A day, in minutes.
pub fn default_cache_ttl() -> (r: u64)
    ensures
        r == 1440,
{
    1440
}

impl Config {
    /// Domain, token and backend of the chosen profile, or of the default
    /// connection when none is chosen; the first profile of that name counts.
    pub fn connection(&self, profile: Option<&str>) -> (r: Result<(String, String, ClientType), AcariError>)
        ensures
            profile is None ==> r == Ok::<(String, String, ClientType), AcariError>(
                (self.domain, self.token, self.client),
            ),
            profile matches Some(name) ==> match r {
                Ok((d, t, c)) => exists|i: int|
                    0 <= i < self.profiles@.len() && (#[trigger] self.profiles@[i]).0@ == name@ && (forall|j: int|
                        0 <= j < i ==> (#[trigger] self.profiles@[j]).0@ != name@) && d == self.profiles@[i].1.domain
                        && t == self.profiles@[i].1.token && c == self.profiles@[i].1.client,
                Err(e) => (e matches AcariError::UserError(m) && m@ == "No such profile: "@ + name@) && forall|j: int|
                    0 <= j < self.profiles@.len() ==> (#[trigger] self.profiles@[j]).0@ != name@,
            },
    {
        match profile {
            None => Ok((self.domain.clone(), self.token.clone(), self.client)),
            Some(name) => {
                let mut i: usize = 0;
                while i < self.profiles.len()
                    invariant
                        profile == Some(name),
                        i <= self.profiles@.len(),
                        forall|j: int| 0 <= j < i ==> (#[trigger] self.profiles@[j]).0@ != name@,
                    decreases self.profiles@.len() - i,
                {
                    if same_text(self.profiles[i].0.as_str(), name) {
                        let p = &self.profiles[i].1;
                        assert(self.profiles@[i as int].0@ == name@);
                        return Ok((p.domain.clone(), p.token.clone(), p.client));
                    }
                    i = i + 1;
                }
                let mut msg = String::from_str("No such profile: ");
                push_str(&mut msg, name);
                Err(AcariError::UserError(msg))
            },
        }
    }

    /// The time to live of cached answers in seconds, at most the largest
    /// number that fits.
    pub fn cache_ttl_seconds(&self) -> (r: u64)
        ensures
            self.cache_ttl_minutes * 60 <= u64::MAX ==> r == self.cache_ttl_minutes * 60,
            self.cache_ttl_minutes * 60 > u64::MAX ==> r == u64::MAX,
    {
        if self.cache_ttl_minutes <= u64::MAX / 60 {
            self.cache_ttl_minutes * 60
        } else {
            u64::MAX
        }
    }
}

/// How results are shown.
#[derive(Debug, Clone, Copy, PartialEq, Eq, Structural)]
pub enum OutputFormat {
    Pretty,
    Json,
    Flat,
}

/// Lists projects, optionally of one customer only.
#[derive(Debug, Clone)]
pub struct ProjectsCmd {
    pub customer: Option<String>,
}

/// Lists the services of a customer's project.
#[derive(Debug, Clone)]
pub struct ServicesCommand {
    pub customer: String,
    pub project: String,
}

/// The projects of `s` whose customer has the name `name`, in order.
pub open spec fn projects_of_customer_name(s: Seq<Project>, name: Seq<char>) -> Seq<Project>
    decreases s.len(),
{
    if s.len() == 0 {
        Seq::empty()
    } else {
        let rest = projects_of_customer_name(s.drop_last(), name);
        if s.last().customer_name@ == name {
            rest.push(s.last())
        } else {
            rest
        }
    }
}

impl ProjectsCmd {
    /// The projects to list: those whose customer has the given name, or
    /// all of them.
    pub fn select(&self, projects: &Vec<Project>) -> (r: Vec<Project>)
        ensures
            self.customer is None ==> r@ == projects@,
            self.customer matches Some(name) ==> r@ == projects_of_customer_name(projects@, name@),
    {
        let mut r: Vec<Project> = Vec::new();
        let mut i: usize = 0;
        while i < projects.len()
            invariant
                i <= projects@.len(),
                self.customer is None ==> r@ == projects@.subrange(0, i as int),
                self.customer matches Some(name) ==> r@ == projects_of_customer_name(projects@.subrange(0, i as int), name@),
            decreases projects@.len() - i,
        {
            proof {
                assert(projects@.subrange(0, i + 1).drop_last() =~= projects@.subrange(0, i as int));
            }
            let keep = match &self.customer {
                Some(name) => same_text(projects[i].customer_name.as_str(), name.as_str()),
                None => true,
            };
            if keep {
                r.push(projects[i].duplicate());
            }
            proof {
                if self.customer is None {
                    assert(r@ =~= projects@.subrange(0, i + 1));
                }
            }
            i = i + 1;
        }
        assert(projects@.subrange(0, i as int) =~= projects@);
        r
    }
}

} // verus!
