use vstd::prelude::*;

verus! {

/// Runtime settings of a site deployment.
#[derive(Clone, Debug, PartialEq, Eq)]
pub struct Config {
    pub postgres: String,
    pub admin_key: String,
    pub git: String,
    pub branch: String,
    pub default_timezone: i32,
    pub sitename: String,
    pub srv_large_subdomain: bool,
}

impl Config {
    pub fn postgres(&self) -> (r: &str)
        ensures
            r@ == self.postgres@,
    {
        self.postgres.as_str()
    }

    pub fn admin_key(&self) -> (r: &str)
        ensures
            r@ == self.admin_key@,
    {
        self.admin_key.as_str()
    }

    pub fn git(&self) -> (r: &str)
        ensures
            r@ == self.git@,
    {
        self.git.as_str()
    }

    pub fn branch(&self) -> (r: &str)
        ensures
            r@ == self.branch@,
    {
        self.branch.as_str()
    }

    pub fn default_timezone(&self) -> (r: i32)
        ensures
            r == self.default_timezone,
    {
        self.default_timezone
    }

    pub fn sitename(&self) -> (r: &str)
        ensures
            r@ == self.sitename@,
    {
        self.sitename.as_str()
    }

    pub fn srv_large_subdomain(&self) -> (r: bool)
        ensures
            r == self.srv_large_subdomain,
    {
        self.srv_large_subdomain
    }
}

} // verus!
