//! Command-line grammar: which process role to run, and under which client
//! identifier.
//!
//! Reading the process arguments is the launcher's part; this module parses
//! an already-collected argument list.  The grammar: one of the commands
//! `host-server`, `client-and-server`, `server` or `client`, where all but
//! `server` take an optional client identifier as `-c <id>` or
//! `--client-id <id>`, flag and value as separate arguments.

use vstd::prelude::*;
use vstd::string::StringSliceAdditionalSpecFns;

verus! {

/// The process roles the launcher can be asked for.
#[derive(Clone, Copy, PartialEq, Eq, Debug)]
pub enum Cli {
    HostServer { client_id: Option<u64> },
    ClientAndServer { client_id: Option<u64> },
    Server,
    Client { client_id: Option<u64> },
}

/// Why an argument list is rejected.
#[derive(Clone, Copy, PartialEq, Eq, Structural, Debug)]
pub enum CliError {
    MissingCommand,
    UnknownCommand,
    UnexpectedArgument,
    MissingValue,
    InvalidValue,
}

/// A decimal digit, as a UTF-8 byte.
pub open spec fn is_digit_byte(b: u8) -> bool {
    48 <= b <= 57
}

/// Nothing but decimal digits.
pub open spec fn is_digit_seq(s: Seq<u8>) -> bool {
    forall|i: int| 0 <= i < s.len() ==> is_digit_byte(#[trigger] s[i])
}

/// The number the digits spell, most significant first.
pub open spec fn digits_value(s: Seq<u8>) -> nat
    decreases s.len(),
{
    if s.len() == 0 {
        0
    } else {
        digits_value(s.drop_last()) * 10 + (s.last() - 48) as nat
    }
}

/// A parsed identifier: the argument's bytes spell a nonempty all-digit
/// string whose value fits the machine word, else nothing.
pub open spec fn spec_parse_u64(s: Seq<u8>) -> Option<u64> {
    if s.len() > 0 && is_digit_seq(s) && digits_value(s) <= u64::MAX {
        Some(digits_value(s) as u64)
    } else {
        None
    }
}

/// The optional client identifier after a command: absent, or one flag with
/// one value.
pub open spec fn spec_parse_client_id(args: Seq<Seq<char>>) -> Result<Option<u64>, CliError>
    recommends
        args.len() >= 1,
{
    if args.len() == 1 {
        Ok(None)
    } else if args[1] == "-c"@ || args[1] == "--client-id"@ {
        if args.len() == 2 {
            Err(CliError::MissingValue)
        } else if args.len() == 3 {
            match spec_parse_u64(vstd::utf8::encode_utf8(args[2])) {
                Some(v) => Ok(Some(v)),
                None => Err(CliError::InvalidValue),
            }
        } else {
            Err(CliError::UnexpectedArgument)
        }
    } else {
        Err(CliError::UnexpectedArgument)
    }
}

/// The whole grammar: a command, then its arguments.
pub open spec fn spec_parse_cli(args: Seq<Seq<char>>) -> Result<Cli, CliError> {
    if args.len() == 0 {
        Err(CliError::MissingCommand)
    } else if args[0] == "server"@ {
        if args.len() == 1 {
            Ok(Cli::Server)
        } else {
            Err(CliError::UnexpectedArgument)
        }
    } else if args[0] == "host-server"@ {
        match spec_parse_client_id(args) {
            Ok(id) => Ok(Cli::HostServer { client_id: id }),
            Err(e) => Err(e),
        }
    } else if args[0] == "client-and-server"@ {
        match spec_parse_client_id(args) {
            Ok(id) => Ok(Cli::ClientAndServer { client_id: id }),
            Err(e) => Err(e),
        }
    } else if args[0] == "client"@ {
        match spec_parse_client_id(args) {
            Ok(id) => Ok(Cli::Client { client_id: id }),
            Err(e) => Err(e),
        }
    } else {
        Err(CliError::UnknownCommand)
    }
}

fn bytes_eq(a: &[u8], b: &[u8]) -> (r: bool)
    ensures
        r == (a@ == b@),
{
    if a.len() != b.len() {
        proof {
            assert(a@.len() != b@.len());
        }
        return false;
    }
    let mut i: usize = 0;
    while i < a.len()
        invariant
            i <= a@.len(),
            a@.len() == b@.len(),
            forall|j: int| 0 <= j < i ==> a@[j] == b@[j],
        decreases a@.len() - i,
    {
        if a[i] != b[i] {
            return false;
        }
        i = i + 1;
    }
    proof {
        assert(a@ =~= b@);
    }
    true
}

/// Whether a collected argument spells the same characters as a literal.
fn str_eq(a: &str, lit: &str) -> (r: bool)
    ensures
        r == (a@ == lit@),
{
    let r = bytes_eq(a.as_bytes(), lit.as_bytes());
    proof {
        vstd::utf8::encode_utf8_decode_utf8(a@);
        vstd::utf8::encode_utf8_decode_utf8(lit@);
    }
    r
}

/// Digit-string growth: a prefix never spells more than the whole.
proof fn lemma_digits_value_prefix(s: Seq<u8>, i: int)
    requires
        0 <= i <= s.len(),
    ensures
        digits_value(s.subrange(0, i)) <= digits_value(s),
    decreases s.len() - i,
{
    if i == s.len() {
        assert(s.subrange(0, i) =~= s);
    } else {
        let prefix = s.drop_last();
        assert(s.subrange(0, i) =~= prefix.subrange(0, i));
        lemma_digits_value_prefix(prefix, i);
    }
}

/// Parses a decimal `u64`, rejecting anything that is empty, holds a
/// non-digit or overflows.
fn parse_u64(s: &str) -> (r: Option<u64>)
    ensures
        r == spec_parse_u64(s.spec_bytes()),
{
    let bytes = s.as_bytes();
    let ghost bs = s.spec_bytes();
    if bytes.len() == 0 {
        return None;
    }
    let mut acc: u64 = 0;
    let mut i: usize = 0;
    proof {
        assert(bs.subrange(0, 0) =~= Seq::<u8>::empty());
    }
    while i < bytes.len()
        invariant
            i <= bs.len(),
            bytes@ == bs,
            bs == s.spec_bytes(),
            forall|j: int| 0 <= j < i ==> is_digit_byte(#[trigger] bs[j]),
            acc == digits_value(bs.subrange(0, i as int)),
        decreases bs.len() - i,
    {
        let b = bytes[i];
        if b < 48 || b > 57 {
            proof {
                assert(!is_digit_byte(bs[i as int]));
            }
            return None;
        }
        let d = (b - 48) as u64;
        proof {
            assert(bs.subrange(0, i as int + 1).drop_last() =~= bs.subrange(0, i as int));
            assert(bs.subrange(0, i as int + 1).last() == bs[i as int]);
            vstd::arithmetic::div_mod::lemma_fundamental_div_mod((u64::MAX - d) as int, 10);
            vstd::arithmetic::div_mod::lemma_mod_bound((u64::MAX - d) as int, 10);
        }
        if acc > (u64::MAX - d) / 10 {
            // The digits spell past the machine word, and every longer
            // prefix spells at least as much.
            proof {
                assert(digits_value(bs.subrange(0, i as int + 1)) == 10 * acc + d);
                assert(10 * acc + d > u64::MAX);
                lemma_digits_value_prefix(bs, i as int + 1);
                assert(digits_value(bs) > u64::MAX);
            }
            return None;
        }
        proof {
            assert(10 * acc + d <= u64::MAX);
        }
        acc = acc * 10 + d;
        i = i + 1;
    }
    proof {
        assert(bs.subrange(0, bs.len() as int) =~= bs);
    }
    Some(acc)
}

/// Parses the optional client identifier after the command.
fn parse_client_id(args: &Vec<String>) -> (r: Result<Option<u64>, CliError>)
    requires
        args@.len() >= 1,
    ensures
        r == spec_parse_client_id(args.deep_view()),
{
    let ghost dv = args.deep_view();
    proof {
        assert(forall|k: int| 0 <= k < args@.len() ==> dv[k] == (#[trigger] args@[k])@);
    }
    if args.len() == 1 {
        return Ok(None);
    }
    let flag = args[1].as_str();
    if str_eq(flag, "-c") || str_eq(flag, "--client-id") {
        if args.len() == 2 {
            return Err(CliError::MissingValue);
        }
        if args.len() == 3 {
            match parse_u64(args[2].as_str()) {
                Some(v) => Ok(Some(v)),
                None => Err(CliError::InvalidValue),
            }
        } else {
            Err(CliError::UnexpectedArgument)
        }
    } else {
        Err(CliError::UnexpectedArgument)
    }
}

/// Parses a collected argument list (the arguments after the program name)
/// into the role to run.
pub fn cli(args: &Vec<String>) -> (r: Result<Cli, CliError>)
    ensures
        r == spec_parse_cli(args.deep_view()),
{
    let ghost dv = args.deep_view();
    proof {
        assert(forall|k: int| 0 <= k < args@.len() ==> dv[k] == (#[trigger] args@[k])@);
    }
    if args.len() == 0 {
        return Err(CliError::MissingCommand);
    }
    let cmd = args[0].as_str();
    if str_eq(cmd, "server") {
        if args.len() == 1 {
            Ok(Cli::Server)
        } else {
            Err(CliError::UnexpectedArgument)
        }
    } else if str_eq(cmd, "host-server") {
        match parse_client_id(args) {
            Ok(id) => Ok(Cli::HostServer { client_id: id }),
            Err(e) => Err(e),
        }
    } else if str_eq(cmd, "client-and-server") {
        match parse_client_id(args) {
            Ok(id) => Ok(Cli::ClientAndServer { client_id: id }),
            Err(e) => Err(e),
        }
    } else if str_eq(cmd, "client") {
        match parse_client_id(args) {
            Ok(id) => Ok(Cli::Client { client_id: id }),
            Err(e) => Err(e),
        }
    } else {
        Err(CliError::UnknownCommand)
    }
}

} // verus!
