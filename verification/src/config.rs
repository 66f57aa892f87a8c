//! The process configuration: account, institution, signature and layout
//! parameters, and the form data sent at login.
//!
//! Reading and decoding the configuration file is I/O and happens outside
//! the library; the decoded values arrive here as plain data.
use vstd::prelude::*;

verus! {

/// The credentials used to authenticate against the platform.
pub struct AccountConfig {
    pub user_name: String,
    pub password: String,
}

/// The training company: the educator responsible and the location of the
/// training.
pub struct CompanyConfig {
    pub educator_name: String,
    pub location: String,
}

/// The signature placed on every sheet, with the font it is rendered in.
pub struct SignatureConfig {
    pub signature: String,
    pub font_name: String,
    pub font_size: u32,
}

/// The platform to scrape.
pub struct WebsiteConfig {
    pub base_url: String,
}

/// Processing options: test mode restricts a run to a single course.
pub struct OptionsSettings {
    pub test_mode: bool,
}

/// The whole decoded configuration.
pub struct GlobalConfig {
    pub account: AccountConfig,
    pub company: CompanyConfig,
    pub signature: SignatureConfig,
    pub website: WebsiteConfig,
    pub options: OptionsSettings,
}

/// The configuration as the rest of the library reads it.
pub struct Config {
    config: GlobalConfig,
}

impl Config {
    /// Wraps a decoded configuration.
    pub fn new(config: GlobalConfig) -> (r: Config)
        ensures
            r.spec_global() == config,
    {
        Config { config }
    }

    /// The wrapped configuration, for contracts.
    pub closed spec fn spec_global(&self) -> GlobalConfig {
        self.config
    }

    /// The account's user name.
    pub fn get_user_name(&self) -> (r: &str)
        ensures
            r@ == self.spec_global().account.user_name@,
    {
        self.config.account.user_name.as_str()
    }

    /// The account's password.
    pub fn get_password(&self) -> (r: &str)
        ensures
            r@ == self.spec_global().account.password@,
    {
        self.config.account.password.as_str()
    }

    /// The educator responsible for the training.
    pub fn get_educator_name(&self) -> (r: &str)
        ensures
            r@ == self.spec_global().company.educator_name@,
    {
        self.config.company.educator_name.as_str()
    }

    /// The location of the training.
    pub fn get_location(&self) -> (r: &str)
        ensures
            r@ == self.spec_global().company.location@,
    {
        self.config.company.location.as_str()
    }

    /// The signature text placed on every sheet.
    pub fn get_signature(&self) -> (r: &str)
        ensures
            r@ == self.spec_global().signature.signature@,
    {
        self.config.signature.signature.as_str()
    }

    /// The font of the signature text.
    pub fn get_font_name(&self) -> (r: &str)
        ensures
            r@ == self.spec_global().signature.font_name@,
    {
        self.config.signature.font_name.as_str()
    }

    /// The size of the signature font.
    pub fn get_font_size(&self) -> (r: u32)
        ensures
            r == self.spec_global().signature.font_size,
    {
        self.config.signature.font_size
    }

    /// The base address of the platform.
    pub fn get_base_url(&self) -> (r: &str)
        ensures
            r@ == self.spec_global().website.base_url@,
    {
        self.config.website.base_url.as_str()
    }

    /// Whether the run is restricted to a single course.
    pub fn get_test_mode(&self) -> (r: bool)
        ensures
            r == self.spec_global().options.test_mode,
    {
        self.config.options.test_mode
    }
}

/// Whether the configuration file exists at any of the candidate paths:
/// true exactly when some path's existence bit is set.  Probing the
/// filesystem happens outside the library; the caller hands in one bit
/// per candidate path, in order.
pub fn config_exists(paths_exist: &Vec<bool>) -> (r: bool)
    ensures
        r == exists|i: int| 0 <= i < paths_exist@.len() && paths_exist@[i],
{
    let n = paths_exist.len();
    let mut i: usize = 0;
    while i < n
        invariant
            i <= n,
            n == paths_exist@.len(),
            forall|j: int| 0 <= j < i ==> !paths_exist@[j],
        decreases n - i,
    {
        if paths_exist[i] {
            assert(paths_exist@[i as int]);
            return true;
        }
        i = i + 1;
    }
    false
}

/// The form fields submitted at login.
pub struct LoginForm {
    pub username: String,
    pub password: String,
    pub logintoken: String,
}

} // verus!
