use vstd::prelude::*;
use vstd::string::StringSliceAdditionalSpecFns;

use getopts::{Fail, Matches, Options};

use crate::server::{IP, PORT};
use crate::text::value_in;

verus! {

#[verifier::external_type_specification]
#[verifier::external_body]
pub struct ExOptions(Options);

#[verifier::external_type_specification]
#[verifier::external_body]
pub struct ExMatches(Matches);

#[verifier::external_type_specification]
#[verifier::external_body]
pub struct ExFail(Fail);

pub open spec fn is_digit(b: u8) -> bool {
    48 <= b <= 57
}

/// The number that `s` writes: present where `s` is a nonempty run of
/// decimal digits whose value fits a `usize`.
pub open spec fn number_of(s: Seq<u8>) -> Option<usize> {
    if s.len() > 0 && (forall|i: int| 0 <= i < s.len() ==> is_digit(#[trigger] s[i]))
        && value_in(s, 10) <= usize::MAX {
        Some(value_in(s, 10) as usize)
    } else {
        None
    }
}

proof fn lemma_numeral_grows(s: Seq<u8>, i: int)
    requires
        0 <= i <= s.len(),
        forall|j: int| 0 <= j < s.len() ==> is_digit(#[trigger] s[j]),
    ensures
        value_in(s.take(i), 10) <= value_in(s, 10),
    decreases s.len(),
{
    if i < s.len() {
        let d = s.drop_last();
        assert(d.take(i) =~= s.take(i));
        assert forall|j: int| 0 <= j < d.len() implies is_digit(#[trigger] d[j]) by {
            assert(d[j] == s[j]);
        }
        lemma_numeral_grows(d, i);
    } else {
        assert(s.take(i) =~= s);
    }
}

/// The number that `s` writes in decimal; see `number_of`.
pub fn parse_number(s: &[u8]) -> (r: Option<usize>)
    ensures
        r == number_of(s@),
{
    if s.len() == 0 {
        return None;
    }
    let mut value: usize = 0;
    let mut i: usize = 0;
    while i < s.len()
        invariant
            0 <= i <= s@.len(),
            s@.len() > 0,
            forall|j: int| 0 <= j < i ==> is_digit(#[trigger] s@[j]),
            value == value_in(s@.take(i as int), 10),
        decreases s@.len() - i,
    {
        let b = s[i];
        assert(s@.take(i + 1).drop_last() =~= s@.take(i as int));
        if b < 48 || b > 57 {
            assert(!is_digit(s@[i as int]));
            return None;
        }
        let next = match value.checked_mul(10) {
            Some(v) => v.checked_add((b - 48) as usize),
            None => None,
        };
        match next {
            Some(v) => {
                value = v;
            },
            None => {
                proof {
                    if forall|j: int| 0 <= j < s@.len() ==> is_digit(#[trigger] s@[j]) {
                        lemma_numeral_grows(s@, i + 1);
                    }
                }
                return None;
            },
        }
        i += 1;
    }
    assert(s@.take(s@.len() as int) =~= s@);
    Some(value)
}

/// What the command line asks for.
pub enum ArgsOutcome {
    /// Serve on `ip` and `port`.
    Run { ip: String, port: usize },
    /// Print how to use `program` and stop.
    Usage { program: String },
    /// The options could not be parsed.
    Rejected { failure: Fail },
    /// The port is not a number.
    BadPort,
}

/// What the command line asks for, once its options are known: usage where
/// `-h` or `--help` was given; otherwise the given address or the default
/// one, and the given port (which must be a number) or the default one.
pub fn select_args(program: String, help: bool, ip: Option<String>, port: Option<String>) -> (r:
    ArgsOutcome)
    ensures
        help ==> (r matches ArgsOutcome::Usage { program: p } && p@ == program@),
        !help ==> match port {
            Some(t) => match number_of(vstd::utf8::encode_utf8(t@)) {
                Some(n) => (r matches ArgsOutcome::Run { ip: a, port: q } && q == n && a@ == (
                match ip {
                    Some(i) => i@,
                    None => IP@,
                })),
                None => r is BadPort,
            },
            None => (r matches ArgsOutcome::Run { ip: a, port: q } && q == PORT && a@ == (
            match ip {
                Some(i) => i@,
                None => IP@,
            })),
        },
{
    if help {
        return ArgsOutcome::Usage { program };
    }
    let port_number = match port {
        Some(t) => match parse_number(t.as_str().as_bytes()) {
            Some(n) => n,
            None => {
                return ArgsOutcome::BadPort;
            },
        },
        None => PORT,
    };
    let address = match ip {
        Some(i) => i,
        None => IP.to_owned(),
    };
    ArgsOutcome::Run { ip: address, port: port_number }
}


/// The options a set declares, in order: short name, long name, and whether
/// the option takes a value.
pub uninterp spec fn declared_options(opts: Options) -> Seq<(Seq<char>, Seq<char>, bool)>;

/// What a parse recorded, for every name of every declared option: the
/// occurrences of that option in order, each with its value where it has one.
pub uninterp spec fn matched_values(m: Matches) -> Map<Seq<char>, Seq<Option<Seq<char>>>>;

/// What parsing `args` against the `declared` options records (see
/// `matched_values`), or `None` where the arguments do not fit the options.
pub uninterp spec fn parse_outcome(
    declared: Seq<(Seq<char>, Seq<char>, bool)>,
    args: Seq<Seq<char>>,
) -> Option<Map<Seq<char>, Seq<Option<Seq<char>>>>>;

/// `getopts::Options::new`: an empty set of options.
pub assume_specification[ getopts::Options::new ]() -> (opts: Options)
    ensures
        declared_options(opts) == Seq::<(Seq<char>, Seq<char>, bool)>::empty(),
;

/// Every declared option has a name.
pub open spec fn all_named(declared: Seq<(Seq<char>, Seq<char>, bool)>) -> bool {
    forall|i: int|
        0 <= i < declared.len() ==> (#[trigger] declared[i]).0.len() > 0 || declared[i].1.len()
            > 0
}

/// `getopts::Options::optopt`: declares an optional option that takes a
/// value. It panics on a short name longer than one byte or a long name of
/// exactly one byte.
#[verifier::external_body]
fn declare_value_option(opts: &mut Options, short_name: &str, long_name: &str)
    requires
        short_name.len() <= 1,
        long_name.len() != 1,
    ensures
        declared_options(*final(opts)) == declared_options(*old(opts)).push(
            (short_name@, long_name@, true),
        ),
{
    opts.optopt(short_name, long_name, "", "");
}

/// `getopts::Options::optflag`: declares an optional option without a value,
/// with the same panics as `declare_value_option`.
#[verifier::external_body]
fn declare_flag(opts: &mut Options, short_name: &str, long_name: &str)
    requires
        short_name.len() <= 1,
        long_name.len() != 1,
    ensures
        declared_options(*final(opts)) == declared_options(*old(opts)).push(
            (short_name@, long_name@, false),
        ),
{
    opts.optflag(short_name, long_name, "");
}

/// The texts of `args`.
pub open spec fn texts(args: Seq<String>) -> Seq<Seq<char>> {
    args.map_values(|a: String| a@)
}

/// `getopts::Options::parse`: on success, what was recorded is
/// `parse_outcome` of the declared options and the arguments, and every name
/// of a declared option can be asked about; on failure `parse_outcome` is
/// `None`. (It panics on an option without a name, hence the `requires`.)
#[verifier::external_body]
fn parse_options(opts: &Options, args: &[String]) -> (r: Result<Matches, Fail>)
    requires
        all_named(declared_options(*opts)),
    ensures
        match r {
            Ok(m) => {
                &&& parse_outcome(declared_options(*opts), texts(args@)) == Some(
                    matched_values(m),
                )
                &&& forall|i: int|
                    0 <= i < declared_options(*opts).len() ==> {
                        let d = #[trigger] declared_options(*opts)[i];
                        &&& d.0.len() > 0 ==> matched_values(m).contains_key(d.0)
                        &&& d.1.len() > 0 ==> matched_values(m).contains_key(d.1)
                    }
            },
            Err(_) => parse_outcome(declared_options(*opts), texts(args@)) is None,
        },
{
    opts.parse(args)
}

/// `getopts::Matches::opt_present`: whether the option of that name occurred.
/// It panics on a name that no declared option has.
pub assume_specification[ getopts::Matches::opt_present ](m: &Matches, name: &str) -> (r: bool)
    requires
        matched_values(*m).contains_key(name@),
    ensures
        r == (matched_values(*m)[name@].len() > 0),
;

/// `getopts::Matches::opt_str`: the value of the first occurrence of the
/// option of that name, where it occurred with one. It panics on a name that
/// no declared option has.
pub assume_specification[ getopts::Matches::opt_str ](m: &Matches, name: &str) -> (r: Option<
    String,
>)
    requires
        matched_values(*m).contains_key(name@),
    ensures
        match r {
            Some(s) => matched_values(*m)[name@].len() > 0 && matched_values(*m)[name@][0] == Some(
                s@,
            ),
            None => matched_values(*m)[name@].len() == 0 || matched_values(*m)[name@][0] is None,
        },
;

/// The options the server takes: `--ip` and `--port` with a value, the flags
/// `-h` and `--help`.
pub open spec fn server_options() -> Seq<(Seq<char>, Seq<char>, bool)> {
    seq![
        (""@, "ip"@, true),
        (""@, "port"@, true),
        ("h"@, ""@, false),
        (""@, "help"@, false),
    ]
}

/// The value of the first occurrence of `name`, where it has one.
pub open spec fn first_value(m: Map<Seq<char>, Seq<Option<Seq<char>>>>, name: Seq<char>) -> Option<
    Seq<char>,
> {
    if m[name].len() > 0 {
        m[name][0]
    } else {
        None
    }
}

/// What a command line asks for, as plain values.
pub enum ArgsView {
    Run { ip: Seq<char>, port: usize },
    Usage { program: Seq<char> },
    Rejected,
    BadPort,
}

impl View for ArgsOutcome {
    type V = ArgsView;

    open spec fn view(&self) -> ArgsView {
        match self {
            ArgsOutcome::Run { ip, port } => ArgsView::Run { ip: ip@, port: *port },
            ArgsOutcome::Usage { program } => ArgsView::Usage { program: program@ },
            ArgsOutcome::Rejected { .. } => ArgsView::Rejected,
            ArgsOutcome::BadPort => ArgsView::BadPort,
        }
    }
}

/// What the command line asks for, given the program name, whether help was
/// asked for, and the texts given for the address and the port.
pub open spec fn selected(
    program: Seq<char>,
    help: bool,
    ip: Option<Seq<char>>,
    port: Option<Seq<char>>,
) -> ArgsView {
    let address = match ip {
        Some(i) => i,
        None => IP@,
    };
    if help {
        ArgsView::Usage { program }
    } else {
        match port {
            Some(t) => match number_of(vstd::utf8::encode_utf8(t)) {
                Some(n) => ArgsView::Run { ip: address, port: n },
                None => ArgsView::BadPort,
            },
            None => ArgsView::Run { ip: address, port: PORT },
        }
    }
}

/// What the command line `args` (the program name first) asks for.
pub open spec fn command_line(args: Seq<Seq<char>>) -> ArgsView {
    match parse_outcome(server_options(), args.drop_first()) {
        None => ArgsView::Rejected,
        Some(m) => selected(
            args[0],
            m["h"@].len() > 0 || m["help"@].len() > 0,
            first_value(m, "ip"@),
            first_value(m, "port"@),
        ),
    }
}

/// Reads the command line `args` (the program name first).
pub fn get_args(args: &Vec<String>) -> (r: ArgsOutcome)
    requires
        args@.len() >= 1,
    ensures
        r@ == command_line(texts(args@)),
{
    let program = args[0].clone();
    let mut opts = Options::new();
    proof {
        reveal_strlit("ip");
        reveal_strlit("port");
        reveal_strlit("h");
        reveal_strlit("help");
        reveal_strlit("");
        broadcast use vstd::string::group_string_axioms;

        assert(vstd::string::is_ascii("ip"));
        assert(vstd::string::is_ascii("port"));
        assert(vstd::string::is_ascii("h"));
        assert(vstd::string::is_ascii("help"));
        assert(vstd::string::is_ascii(""));
    }
    declare_value_option(&mut opts, "", "ip");
    declare_value_option(&mut opts, "", "port");
    declare_flag(&mut opts, "h", "");
    declare_flag(&mut opts, "", "help");
    assert(declared_options(opts) =~= server_options());
    let rest = vstd::slice::slice_subrange(args.as_slice(), 1, args.len());
    assert(texts(rest@) =~= texts(args@).drop_first());
    match parse_options(&opts, rest) {
        Err(failure) => ArgsOutcome::Rejected { failure },
        Ok(m) => {
            proof {
                assert(declared_options(opts)[0] == (""@, "ip"@, true));
                assert(declared_options(opts)[1] == (""@, "port"@, true));
                assert(declared_options(opts)[2] == ("h"@, ""@, false));
                assert(declared_options(opts)[3] == (""@, "help"@, false));
            }
            let help = m.opt_present("h") || m.opt_present("help");
            let ip = if m.opt_present("ip") {
                m.opt_str("ip")
            } else {
                None
            };
            let port = if m.opt_present("port") {
                m.opt_str("port")
            } else {
                None
            };
            let r = select_args(program, help, ip, port);
            r
        },
    }
}

} // verus!
