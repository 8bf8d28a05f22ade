//! Command-line options and the identifier-to-label table.

use vstd::prelude::*;
use vstd::utf8::encode_utf8;
use crate::measurements::compare_keys;
use std::collections::BTreeMap;

verus! {

/// A label per identifier, as key and label.
pub type NamePair = (Seq<char>, Seq<char>);

/// The label of the first pair whose key is `k`.
pub open spec fn name_for(pairs: Seq<NamePair>, k: Seq<char>) -> Option<Seq<char>>
    decreases pairs.len(),
{
    if pairs.len() == 0 {
        None
    } else if pairs[0].0 == k {
        Some(pairs[0].1)
    } else {
        name_for(pairs.drop_first(), k)
    }
}

/// Human-readable labels of sensors and gateways, looked up by identifier.
pub struct MacMapping {
    names: Vec<(String, String)>,
}

/// A label table that is not a YAML mapping of strings to strings.
#[derive(Debug, Clone, Copy, PartialEq, Eq)]
pub struct InvalidMapping;

pub uninterp spec fn yaml_string_map(text: Seq<char>) -> Option<Seq<NamePair>>;

#[verifier::external_type_specification]
#[verifier::external_body]
pub struct ExYamlError(serde_yaml::Error);

/// Relies on `serde_yaml::from_str` into a `BTreeMap<String, String>`: the
/// pairs in key order, or an error, as a function of the text.
#[verifier::external_body]
fn parse_yaml_map(text: &str) -> (r: Result<Vec<(String, String)>, serde_yaml::Error>)
    ensures
        r is Ok ==> yaml_string_map(text@) == Some(r->Ok_0@.map_values(|p: (String, String)| (p.0@, p.1@))),
        r is Err ==> yaml_string_map(text@) is None,
{
    match serde_yaml::from_str::<BTreeMap<String, String>>(text) {
        Ok(m) => Ok(m.into_iter().collect()),
        Err(e) => Err(e),
    }
}

impl MacMapping {
    pub closed spec fn pairs(&self) -> Seq<NamePair> {
        self.names@.map_values(|p: (String, String)| (p.0@, p.1@))
    }

    /// A table of the given pairs; the first pair of a key wins.
    pub fn from_pairs(names: Vec<(String, String)>) -> (r: Self)
        ensures
            r.pairs() == names@.map_values(|p: (String, String)| (p.0@, p.1@)),
    {
        MacMapping { names }
    }

    /// Reads the table from YAML text: one mapping from identifier to label.
    pub fn from_yaml(text: &str) -> (r: Result<Self, InvalidMapping>)
        ensures
            r is Ok <==> yaml_string_map(text@) is Some,
            r is Ok ==> yaml_string_map(text@) == Some(r->Ok_0.pairs()),
    {
        match parse_yaml_map(text) {
            Ok(names) => Ok(MacMapping { names }),
            Err(_) => Err(InvalidMapping),
        }
    }

    /// The label of an identifier.
    pub fn lookup(&self, mac: &str) -> (r: Option<&str>)
        ensures
            r is None <==> name_for(self.pairs(), mac@) is None,
            r is Some ==> name_for(self.pairs(), mac@) == Some(r->0@),
    {
        let ghost ps = self.pairs();
        assert(ps.subrange(0, ps.len() as int) =~= ps);
        let mut i: usize = 0;
        while i < self.names.len()
            invariant
                ps == self.pairs(),
                i <= ps.len(),
                name_for(ps, mac@) == name_for(ps.subrange(i as int, ps.len() as int), mac@),
            decreases ps.len() - i,
        {
            let ghost rest = ps.subrange(i as int, ps.len() as int);
            assert(rest.drop_first() =~= ps.subrange(i + 1, ps.len() as int));
            if compare_keys(self.names[i].0.as_str(), mac) == 0 {
                return Some(self.names[i].1.as_str());
            }
            i = i + 1;
        }
        None
    }
}

impl Default for MacMapping {
    /// An empty table.
    fn default() -> (r: Self)
        ensures
            r.pairs() == Seq::<NamePair>::empty(),
    {
        let r = MacMapping { names: Vec::new() };
        assert(r.pairs() =~= Seq::<NamePair>::empty());
        r
    }
}

pub const DEFAULT_PORT: u16 = 9000;

/// Where to listen, and where the label table is.
#[derive(Debug, Clone, PartialEq, Eq)]
pub struct Config {
    /// Port to listen on.
    pub port: u16,
    /// Interface to bind to.
    pub interface: String,
    /// Path of a YAML file that maps identifiers to labels.
    pub mac_mapping: Option<String>,
}

/// Why the command line was refused.
#[derive(Debug, Clone, PartialEq, Eq)]
pub enum ConfigError {
    /// An argument that names no option.
    UnknownArgument(String),
    /// An option at the end, without its value.
    MissingValue(String),
    /// A port that is not a decimal number below 65536.
    InvalidPort(String),
}

/// A refusal as its kind and the argument it names.
pub enum ArgumentProblem {
    Unknown(Seq<char>),
    Missing(Seq<char>),
    BadPort(Seq<char>),
}

pub open spec fn problem_of(e: ConfigError) -> ArgumentProblem {
    match e {
        ConfigError::UnknownArgument(a) => ArgumentProblem::Unknown(a@),
        ConfigError::MissingValue(a) => ArgumentProblem::Missing(a@),
        ConfigError::InvalidPort(v) => ArgumentProblem::BadPort(v@),
    }
}

/// Options as port, interface and label file.
pub type ConfigView = (u16, Seq<char>, Option<Seq<char>>);

pub open spec fn is_port_option(a: Seq<char>) -> bool {
    a == "-p"@ || a == "--port"@
}

pub open spec fn is_interface_option(a: Seq<char>) -> bool {
    a == "-i"@ || a == "--interface"@
}

pub open spec fn is_mapping_option(a: Seq<char>) -> bool {
    a == "-m"@ || a == "--mac-mapping"@
}

/// The value of a string of ASCII decimal digits.
pub open spec fn digits_value(b: Seq<u8>) -> nat
    decreases b.len(),
{
    if b.len() == 0 {
        0
    } else {
        10 * digits_value(b.drop_last()) + (b.last() - 48) as nat
    }
}

/// A port: one or more decimal digits whose value is below 65536.
pub open spec fn port_value(b: Seq<u8>) -> Option<u16> {
    if b.len() > 0 && (forall|i: int| 0 <= i < b.len() ==> 48 <= #[trigger] b[i] <= 57)
        && digits_value(b) < 65536 {
        Some(digits_value(b) as u16)
    } else {
        None
    }
}

/// The error of an argument list, if any, reading options from the front.
pub open spec fn args_error(args: Seq<Seq<char>>) -> Option<ArgumentProblem>
    decreases args.len(),
{
    if args.len() == 0 {
        None
    } else {
        let a = args[0];
        if !(is_port_option(a) || is_interface_option(a) || is_mapping_option(a)) {
            Some(ArgumentProblem::Unknown(a))
        } else if args.len() < 2 {
            Some(ArgumentProblem::Missing(a))
        } else if is_port_option(a) && port_value(encode_utf8(args[1])) is None {
            Some(ArgumentProblem::BadPort(args[1]))
        } else {
            args_error(args.subrange(2, args.len() as int))
        }
    }
}

/// The options after reading an argument list from the front, starting from
/// `acc`: a later occurrence of an option overrides an earlier one.
pub open spec fn args_config(args: Seq<Seq<char>>, acc: ConfigView) -> ConfigView
    decreases args.len(),
{
    if args.len() < 2 {
        acc
    } else {
        let a = args[0];
        let v = args[1];
        let next = if is_port_option(a) {
            (port_value(encode_utf8(v))->0, acc.1, acc.2)
        } else if is_interface_option(a) {
            (acc.0, v, acc.2)
        } else {
            (acc.0, acc.1, Some(v))
        };
        args_config(args.subrange(2, args.len() as int), next)
    }
}

/// Port 9000, all interfaces, no label file.
pub open spec fn default_config() -> ConfigView {
    (DEFAULT_PORT, "0.0.0.0"@, None)
}

pub open spec fn opt_view(o: Option<String>) -> Option<Seq<char>> {
    match o {
        Some(m) => Some(m@),
        None => None,
    }
}

pub open spec fn config_view(c: Config) -> ConfigView {
    (c.port, c.interface@, opt_view(c.mac_mapping))
}

fn parse_port(text: &str) -> (r: Option<u16>)
    ensures
        r == port_value(encode_utf8(text@)),
{
    let b = text.as_bytes();
    let ghost bs = b@;
    if b.len() == 0 {
        return None;
    }
    let mut v: u32 = 0;
    let mut i: usize = 0;
    while i < b.len()
        invariant
            bs == b@,
            bs == encode_utf8(text@),
            i <= bs.len(),
            v == digits_value(bs.subrange(0, i as int)),
            v < 65536,
            forall|j: int| 0 <= j < i ==> 48 <= #[trigger] bs[j] <= 57,
        decreases bs.len() - i,
    {
        let c = b[i];
        assert(bs.subrange(0, i + 1).drop_last() =~= bs.subrange(0, i as int));
        if c < 48 || c > 57 {
            return None;
        }
        let next = 10 * v + (c - 48) as u32;
        if next >= 65536 {
            proof {
                if forall|j: int| 0 <= j < bs.len() ==> 48 <= #[trigger] bs[j] <= 57 {
                    lemma_digits_value_monotone(bs, i + 1);
                }
            }
            return None;
        }
        v = next;
        i = i + 1;
    }
    assert(bs.subrange(0, i as int) =~= bs);
    Some(v as u16)
}

proof fn lemma_digits_value_monotone(b: Seq<u8>, k: int)
    requires
        0 <= k <= b.len(),
        forall|j: int| 0 <= j < b.len() ==> 48 <= #[trigger] b[j] <= 57,
    ensures
        digits_value(b) >= digits_value(b.subrange(0, k)),
    decreases b.len(),
{
    if k < b.len() {
        let c = b.drop_last();
        assert(c.subrange(0, k) =~= b.subrange(0, k));
        lemma_digits_value_monotone(c, k);
    } else {
        assert(b.subrange(0, k) =~= b);
    }
}

impl Config {
    /// Reads the options from an argument list whose first item is the
    /// program's name: `-p`/`--port`, `-i`/`--interface` and
    /// `-m`/`--mac-mapping`, each followed by its value.
    pub fn try_parse_from(args: &[&str]) -> (r: Result<Config, ConfigError>)
        ensures
            args@.len() <= 1 ==> r is Ok && config_view(r->Ok_0) == default_config(),
            args@.len() > 1 ==> {
                let rest = args@.subrange(1, args@.len() as int).map_values(|a: &str| a@);
                &&& (r is Ok <==> args_error(rest) is None)
                &&& r is Ok ==> config_view(r->Ok_0) == args_config(rest, default_config())
                &&& r is Err ==> args_error(rest) == Some(problem_of(r->Err_0))
            },
    {
        proof {
            reveal_strlit("0.0.0.0");
        }
        let mut port: u16 = DEFAULT_PORT;
        let mut interface = String::from_str("0.0.0.0");
        let mut mac_mapping: Option<String> = None;
        if args.len() <= 1 {
            let c = Config { port, interface, mac_mapping };
            assert(config_view(c) == default_config());
            return Ok(c);
        }
        let ghost all = args@.subrange(1, args@.len() as int).map_values(|a: &str| a@);
        let mut i: usize = 1;
        while i < args.len()
            invariant
                1 <= i <= args@.len() + 1,
                all == args@.subrange(1, args@.len() as int).map_values(|a: &str| a@),
                i <= args@.len() ==> (
                    args_error(all) == args_error(args@.subrange(i as int, args@.len() as int).map_values(|a: &str| a@))
                    && args_config(all, default_config()) == args_config(
                        args@.subrange(i as int, args@.len() as int).map_values(|a: &str| a@),
                        (port, interface@, opt_view(mac_mapping)),
                    )),
                i > args@.len() ==> args_error(all) is None && args_config(all, default_config())
                    == (port, interface@, opt_view(mac_mapping)),
            decreases args@.len() + 1 - i,
        {
            let ghost rest = args@.subrange(i as int, args@.len() as int).map_values(|a: &str| a@);
            let a = args[i];
            let is_port = compare_keys(a, "-p") == 0 || compare_keys(a, "--port") == 0;
            let is_interface = compare_keys(a, "-i") == 0 || compare_keys(a, "--interface") == 0;
            let is_mapping = compare_keys(a, "-m") == 0 || compare_keys(a, "--mac-mapping") == 0;
            assert(rest[0] == a@);
            if !(is_port || is_interface || is_mapping) {
                return Err(ConfigError::UnknownArgument(a.to_owned()));
            }
            if i + 1 >= args.len() {
                return Err(ConfigError::MissingValue(a.to_owned()));
            }
            let v = args[i + 1];
            assert(rest[1] == v@);
            assert(rest.subrange(2, rest.len() as int) =~= args@.subrange(i + 2, args@.len() as int).map_values(
                |a: &str| a@,
            ));
            if is_port {
                match parse_port(v) {
                    Some(p) => {
                        port = p;
                    },
                    None => {
                        return Err(ConfigError::InvalidPort(v.to_owned()));
                    },
                }
            } else if is_interface {
                interface = v.to_owned();
            } else {
                mac_mapping = Some(v.to_owned());
            }
            i = i + 2;
            proof {
                if i >= args@.len() {
                    assert(args@.subrange(i as int, args@.len() as int).map_values(|a: &str| a@).len() == 0);
                }
            }
        }
        Ok(Config { port, interface, mac_mapping })
    }
}

} // verus!
