use vstd::prelude::*;

verus! {

/// The operating systems the launcher tells apart.
#[derive(Clone, Copy, Debug, PartialEq, Eq, Structural)]
pub enum Os {
    Windows,
    MacOs,
    Linux,
    Other,
}

impl Os {
    /// The path separator that paths built for this system use.
    pub open spec fn spec_main_separator(self) -> char {
        match self {
            Os::Windows => '\\',
            _ => '/',
        }
    }

    /// Whether `c` separates the components of a path on this system.
    pub open spec fn spec_is_separator(self, c: char) -> bool {
        c == '/' || (self == Os::Windows && c == '\\')
    }

    /// The system that `std::env::consts::OS` names `name`.
    pub open spec fn named(name: Seq<char>) -> Os {
        if name == "windows"@ {
            Os::Windows
        } else if name == "macos"@ {
            Os::MacOs
        } else if name == "linux"@ {
            Os::Linux
        } else {
            Os::Other
        }
    }

    /// The system named `name` (`"windows"`, `"macos"`, `"linux"`; any other
    /// name is a system the launcher does not know).
    pub fn from_name(name: &str) -> (os: Os)
        ensures
            os == Os::named(name@),
    {
        let n = String::from_str(name);
        if n == String::from_str("windows") {
            Os::Windows
        } else if n == String::from_str("macos") {
            Os::MacOs
        } else if n == String::from_str("linux") {
            Os::Linux
        } else {
            Os::Other
        }
    }

    pub fn main_separator(&self) -> (c: char)
        ensures
            c == self.spec_main_separator(),
    {
        match self {
            Os::Windows => '\\',
            _ => '/',
        }
    }

    pub fn is_separator(&self, c: char) -> (b: bool)
        ensures
            b == self.spec_is_separator(c),
    {
        c == '/' || (matches!(self, Os::Windows) && c == '\\')
    }
}

} // verus!
