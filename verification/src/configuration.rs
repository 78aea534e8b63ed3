//! The running environment: which configuration file set the process
//! loads.

use vstd::prelude::*;

verus! {

use vstd::string::StrSliceExecFns;

/// The environment a deployment runs in.
#[derive(Clone, Copy, Debug, PartialEq, Eq, Structural)]
pub enum Environment {
    Dev,
    Prod,
}

/// The configuration-file name stem of an environment.
pub open spec fn environment_name(e: Environment) -> Seq<char> {
    match e {
        Environment::Dev => "dev"@,
        Environment::Prod => "prod"@,
    }
}

impl Environment {
    /// The name stem of this environment.
    pub fn as_str(&self) -> (r: &'static str)
        ensures
            r@ == environment_name(*self),
    {
        match self {
            Environment::Dev => "dev",
            Environment::Prod => "prod",
        }
    }

    /// Parses an environment name; only the two known stems are accepted.
    pub fn parse(value: &str) -> (r: Result<Environment, &'static str>)
        ensures
            value@ == environment_name(Environment::Dev) ==> r == Ok::<Environment, &'static str>(
                Environment::Dev,
            ),
            value@ == environment_name(Environment::Prod) ==> r == Ok::<Environment, &'static str>(
                Environment::Prod,
            ),
            value@ != environment_name(Environment::Dev) && value@ != environment_name(
                Environment::Prod,
            ) ==> r is Err,
    {
        proof {
            reveal_strlit("dev");
            reveal_strlit("prod");
        }
        let n = value.unicode_len();
        if n == 3 {
            if value.get_char(0) == 'd' && value.get_char(1) == 'e' && value.get_char(2) == 'v' {
                proof {
                    assert(value@ =~= "dev"@);
                }
                Ok(Environment::Dev)
            } else {
                proof {
                    assert(value@ != "dev"@);
                    assert(value@ != "prod"@);
                }
                Err("no such environment supported")
            }
        } else if n == 4 {
            if value.get_char(0) == 'p' && value.get_char(1) == 'r' && value.get_char(2) == 'o'
                && value.get_char(3) == 'd' {
                proof {
                    assert(value@ =~= "prod"@);
                }
                Ok(Environment::Prod)
            } else {
                proof {
                    assert(value@ != "dev"@);
                    assert(value@ != "prod"@);
                }
                Err("no such environment supported")
            }
        } else {
            Err("no such environment supported")
        }
    }
}

} // verus!
