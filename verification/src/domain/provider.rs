//! Issue tracker providers configured for a workspace.

use vstd::prelude::*;

use crate::text::owned;

verus! {

/// The identifier of a configured provider.
#[derive(Debug, PartialEq, Eq, Hash, PartialOrd, Ord)]
pub struct ProviderId(pub String);

impl View for ProviderId {
    type V = Seq<char>;

    open spec fn view(&self) -> Seq<char> {
        self.0@
    }
}

impl Clone for ProviderId {
    fn clone(&self) -> (r: Self)
        ensures
            r == *self,
    {
        ProviderId(self.0.clone())
    }
}

impl ProviderId {
    pub fn new(value: &str) -> (id: Self)
        ensures
            id@ == value@,
    {
        ProviderId(owned(value))
    }

    pub fn as_str(&self) -> (s: &str)
        ensures
            s@ == self@,
    {
        self.0.as_str()
    }
}

impl<'a> From<&'a str> for ProviderId {
    fn from(value: &'a str) -> (id: Self)
        ensures
            id@ == value@,
    {
        ProviderId::new(value)
    }
}

impl<'a> vstd::std_specs::convert::FromSpecImpl<&'a str> for ProviderId {
    /// Two texts with the same characters are not known to be the same `String` value, so
    /// `from` states its result by its view instead.
    open spec fn obeys_from_spec() -> bool {
        false
    }

    open spec fn from_spec(v: &'a str) -> Self {
        arbitrary()
    }
}

/// A provider configuration; GitLab is the only kind.
#[derive(Debug, PartialEq, Eq)]
pub enum ProviderConfig {
    Gitlab { id: ProviderId, instance_url: String, projects: Vec<String> },
}

impl Clone for ProviderConfig {
    fn clone(&self) -> (r: Self)
        ensures
            r->id == self->id,
            r->instance_url == self->instance_url,
            r->projects@ == self->projects@,
    {
        match self {
            ProviderConfig::Gitlab { id, instance_url, projects } => {
                let projects = projects.clone();
                proof {
                    assert(projects@ =~= self->projects@);
                }
                ProviderConfig::Gitlab {
                    id: id.clone(),
                    instance_url: instance_url.clone(),
                    projects,
                }
            },
        }
    }
}

impl ProviderConfig {
    pub fn id(&self) -> (id: &ProviderId)
        ensures
            *id == self->id,
    {
        match self {
            ProviderConfig::Gitlab { id, .. } => id,
        }
    }

    pub fn instance_url(&self) -> (url: &str)
        ensures
            url@ == self->instance_url@,
    {
        match self {
            ProviderConfig::Gitlab { instance_url, .. } => instance_url.as_str(),
        }
    }

    pub fn projects(&self) -> (projects: &[String])
        ensures
            projects@ == self->projects@,
    {
        match self {
            ProviderConfig::Gitlab { projects, .. } => projects.as_slice(),
        }
    }
}

} // verus!
