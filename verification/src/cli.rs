//! The command line.

use vstd::prelude::*;
use vstd::utf8::encode_utf8;

use crate::bytes::{all_digits, digits_value, parse_u64, same, to_vec, unsigned};

verus! {

/// What stands between the octets of an address.
pub const DOT: u8 = 46;

/// How the server runs.
pub struct Config {
    pub port: u16,
    /// The path of the log.
    pub wal: Vec<u8>,
    pub itch_ip: [u8; 4],
    pub itch_port: u16,
    pub itch_iface: [u8; 4],
    pub cpu_ingress: usize,
    pub cpu_engine: usize,
    pub cpu_egress: usize,
    pub cpu_itch: usize,
    pub slab: usize,
}

/// The view of a configuration.
#[verifier::ext_equal]
pub struct ConfigView {
    pub port: u16,
    pub wal: Seq<u8>,
    pub itch_ip: [u8; 4],
    pub itch_port: u16,
    pub itch_iface: [u8; 4],
    pub cpu_ingress: usize,
    pub cpu_engine: usize,
    pub cpu_egress: usize,
    pub cpu_itch: usize,
    pub slab: usize,
}

impl View for Config {
    type V = ConfigView;

    open spec fn view(&self) -> ConfigView {
        ConfigView {
            port: self.port,
            wal: self.wal@,
            itch_ip: self.itch_ip,
            itch_port: self.itch_port,
            itch_iface: self.itch_iface,
            cpu_ingress: self.cpu_ingress,
            cpu_engine: self.cpu_engine,
            cpu_egress: self.cpu_egress,
            cpu_itch: self.cpu_itch,
            slab: self.slab,
        }
    }
}

/// Why the server does not run.
#[derive(Debug, Clone, Copy, PartialEq, Eq, Structural)]
pub enum Stop {
    /// Help was asked for.
    Help,
    /// The last flag needs a value.
    MissingValue,
    /// There is no such flag.
    Unknown,
    /// The value of a flag is not of its kind.
    BadValue,
}

/// A flag that takes a value.
#[derive(Debug, Clone, Copy, PartialEq, Eq, Structural)]
pub enum Flag {
    Port,
    Wal,
    ItchIp,
    ItchPort,
    ItchIface,
    CpuIngress,
    CpuEngine,
    CpuEgress,
    CpuItch,
    Slab,
}

/// What runs when nothing is asked for.
pub open spec fn default_config() -> ConfigView {
    ConfigView {
        port: 12345,
        wal: encode_utf8("orderbook.wal"@),
        itch_ip: [239u8, 0u8, 0u8, 1u8],
        itch_port: 5000,
        itch_iface: [127u8, 0u8, 0u8, 1u8],
        cpu_ingress: 8,
        cpu_engine: 10,
        cpu_egress: 12,
        cpu_itch: 14,
        slab: 1048576,
    }
}

/// Whether help is asked for.
pub open spec fn is_help(a: Seq<u8>) -> bool {
    a == encode_utf8("-h"@) || a == encode_utf8("--help"@)
}

/// The flag that an argument is.
pub open spec fn flag_of(a: Seq<u8>) -> Option<Flag> {
    if a == encode_utf8("-p"@) || a == encode_utf8("--port"@) {
        Some(Flag::Port)
    } else if a == encode_utf8("-w"@) || a == encode_utf8("--wal"@) {
        Some(Flag::Wal)
    } else if a == encode_utf8("--itch-ip"@) {
        Some(Flag::ItchIp)
    } else if a == encode_utf8("--itch-port"@) {
        Some(Flag::ItchPort)
    } else if a == encode_utf8("--itch-iface"@) {
        Some(Flag::ItchIface)
    } else if a == encode_utf8("-i"@) || a == encode_utf8("--cpu-ingress"@) {
        Some(Flag::CpuIngress)
    } else if a == encode_utf8("-e"@) || a == encode_utf8("--cpu-engine"@) {
        Some(Flag::CpuEngine)
    } else if a == encode_utf8("-o"@) || a == encode_utf8("--cpu-egress"@) {
        Some(Flag::CpuEgress)
    } else if a == encode_utf8("-m"@) || a == encode_utf8("--cpu-itch"@) {
        Some(Flag::CpuItch)
    } else if a == encode_utf8("--slab"@) {
        Some(Flag::Slab)
    } else {
        None
    }
}

/// A 16-bit number in decimal.
pub open spec fn unsigned16(s: Seq<u8>) -> Option<u16> {
    match unsigned(s) {
        Some(v) => if v <= u16::MAX {
            Some(v as u16)
        } else {
            None
        },
        None => None,
    }
}

/// A machine-sized number in decimal.
pub open spec fn unsigned_size(s: Seq<u8>) -> Option<usize> {
    match unsigned(s) {
        Some(v) => if v <= usize::MAX {
            Some(v as usize)
        } else {
            None
        },
        None => None,
    }
}

/// A text cut at its dots.
pub open spec fn split_dots(s: Seq<u8>) -> Seq<Seq<u8>>
    decreases s.len(),
{
    if s.len() == 0 {
        seq![Seq::empty()]
    } else {
        let parts = split_dots(s.drop_last());
        if s.last() == DOT {
            parts.push(Seq::empty())
        } else {
            parts.drop_last().push(parts.last().push(s.last()))
        }
    }
}

/// An octet in decimal, without leading zeros.
pub open spec fn octet_of(s: Seq<u8>) -> Option<u8> {
    if 1 <= s.len() <= 3 && all_digits(s) && (s.len() == 1 || s[0] != 48) && digits_value(s)
        <= u8::MAX {
        Some(digits_value(s) as u8)
    } else {
        None
    }
}

/// An IPv4 address: four octets with dots between them.
pub open spec fn address_of(s: Seq<u8>) -> Option<[u8; 4]> {
    let p = split_dots(s);
    if p.len() != 4 {
        None
    } else {
        match (octet_of(p[0]), octet_of(p[1]), octet_of(p[2]), octet_of(p[3])) {
            (Some(a), Some(b), Some(c), Some(d)) => Some([a, b, c, d]),
            _ => None,
        }
    }
}

/// The configuration with one value set, if the value is of the flag's kind.
pub open spec fn with_value(c: ConfigView, flag: Flag, v: Seq<u8>) -> Option<ConfigView> {
    match flag {
        Flag::Port => match unsigned16(v) {
            Some(n) => Some(ConfigView { port: n, ..c }),
            None => None,
        },
        Flag::Wal => Some(ConfigView { wal: v, ..c }),
        Flag::ItchIp => match address_of(v) {
            Some(a) => Some(ConfigView { itch_ip: a, ..c }),
            None => None,
        },
        Flag::ItchPort => match unsigned16(v) {
            Some(n) => Some(ConfigView { itch_port: n, ..c }),
            None => None,
        },
        Flag::ItchIface => match address_of(v) {
            Some(a) => Some(ConfigView { itch_iface: a, ..c }),
            None => None,
        },
        Flag::CpuIngress => match unsigned_size(v) {
            Some(n) => Some(ConfigView { cpu_ingress: n, ..c }),
            None => None,
        },
        Flag::CpuEngine => match unsigned_size(v) {
            Some(n) => Some(ConfigView { cpu_engine: n, ..c }),
            None => None,
        },
        Flag::CpuEgress => match unsigned_size(v) {
            Some(n) => Some(ConfigView { cpu_egress: n, ..c }),
            None => None,
        },
        Flag::CpuItch => match unsigned_size(v) {
            Some(n) => Some(ConfigView { cpu_itch: n, ..c }),
            None => None,
        },
        Flag::Slab => match unsigned_size(v) {
            Some(n) => Some(ConfigView { slab: n, ..c }),
            None => None,
        },
    }
}

/// What a list of arguments makes of a configuration: the first that does not fit
/// stops it.
pub open spec fn configured(c: ConfigView, args: Seq<Seq<u8>>) -> Result<ConfigView, Stop>
    decreases args.len(),
{
    if args.len() == 0 {
        Ok(c)
    } else if is_help(args[0]) {
        Err(Stop::Help)
    } else {
        match flag_of(args[0]) {
            None => Err(Stop::Unknown),
            Some(flag) => if args.len() == 1 {
                Err(Stop::MissingValue)
            } else {
                match with_value(c, flag, args[1]) {
                    None => Err(Stop::BadValue),
                    Some(c2) => configured(c2, args.skip(2)),
                }
            },
        }
    }
}

/// The arguments as bytes.
pub open spec fn arg_bytes(args: Seq<String>) -> Seq<Seq<u8>> {
    Seq::new(args.len(), |i: int| encode_utf8(args[i]@))
}

/// The exit code that a stop comes to. A value of the wrong kind has none.
pub open spec fn code_of(stop: Stop) -> Option<i32> {
    match stop {
        Stop::Help => Some(0),
        Stop::MissingValue => Some(2),
        Stop::Unknown => Some(2),
        Stop::BadValue => None,
    }
}

impl Stop {
    /// The exit code. A value of the wrong kind has none: that is a crash.
    pub fn code(self) -> (r: Option<i32>)
        ensures
            r == code_of(self),
    {
        match self {
            Stop::Help => Some(0),
            Stop::MissingValue => Some(2),
            Stop::Unknown => Some(2),
            Stop::BadValue => None,
        }
    }
}

fn is(a: &[u8], text: &str) -> (r: bool)
    ensures
        r == (a@ == encode_utf8(text@)),
{
    same(a, text.as_bytes())
}

fn parse_flag(a: &[u8]) -> (r: Option<Flag>)
    ensures
        r == flag_of(a@),
{
    if is(a, "-p") || is(a, "--port") {
        Some(Flag::Port)
    } else if is(a, "-w") || is(a, "--wal") {
        Some(Flag::Wal)
    } else if is(a, "--itch-ip") {
        Some(Flag::ItchIp)
    } else if is(a, "--itch-port") {
        Some(Flag::ItchPort)
    } else if is(a, "--itch-iface") {
        Some(Flag::ItchIface)
    } else if is(a, "-i") || is(a, "--cpu-ingress") {
        Some(Flag::CpuIngress)
    } else if is(a, "-e") || is(a, "--cpu-engine") {
        Some(Flag::CpuEngine)
    } else if is(a, "-o") || is(a, "--cpu-egress") {
        Some(Flag::CpuEgress)
    } else if is(a, "-m") || is(a, "--cpu-itch") {
        Some(Flag::CpuItch)
    } else if is(a, "--slab") {
        Some(Flag::Slab)
    } else {
        None
    }
}

fn parse_u16(v: &[u8]) -> (r: Option<u16>)
    ensures
        r == unsigned16(v@),
{
    match parse_u64(v) {
        Some(n) => if n <= u16::MAX as u64 {
            Some(n as u16)
        } else {
            None
        },
        None => None,
    }
}

fn parse_size(v: &[u8]) -> (r: Option<usize>)
    ensures
        r == unsigned_size(v@),
{
    match parse_u64(v) {
        Some(n) => if n <= usize::MAX as u64 {
            Some(n as usize)
        } else {
            None
        },
        None => None,
    }
}

spec fn part_views(parts: Seq<Vec<u8>>) -> Seq<Seq<u8>> {
    Seq::new(parts.len(), |i: int| parts[i]@)
}

fn cut_at_dots(s: &[u8]) -> (r: Vec<Vec<u8>>)
    ensures
        part_views(r@) == split_dots(s@),
{
    let mut done: Vec<Vec<u8>> = Vec::new();
    let mut part: Vec<u8> = Vec::new();
    let mut i: usize = 0;
    proof {
        assert(s@.take(0) =~= Seq::<u8>::empty());
        assert(part_views(done@).push(part@) =~= split_dots(s@.take(0)));
    }
    while i < s.len()
        invariant
            i <= s@.len(),
            part_views(done@).push(part@) == split_dots(s@.take(i as int)),
        decreases s@.len() - i,
    {
        let b: u8 = s[i];
        let ghost before = part_views(done@).push(part@);
        assert(s@.take(i + 1).drop_last() =~= s@.take(i as int));
        assert(s@.take(i + 1).last() == b);
        if b == DOT {
            done.push(part);
            part = Vec::new();
            assert(part_views(done@) =~= before);
            assert(part_views(done@).push(part@) =~= before.push(Seq::empty()));
        } else {
            part.push(b);
            assert(before.drop_last() =~= part_views(done@));
            assert(part_views(done@).push(part@) =~= before.drop_last().push(
                before.last().push(b),
            ));
        }
        i = i + 1;
    }
    assert(s@.take(i as int) =~= s@);
    let ghost all = part_views(done@).push(part@);
    done.push(part);
    assert(part_views(done@) =~= all);
    done
}

fn parse_octet(s: &[u8]) -> (r: Option<u8>)
    ensures
        r == octet_of(s@),
{
    if s.len() == 0 || s.len() > 3 || s[0] == 43 || (s.len() > 1 && s[0] == 48) {
        return None;
    }
    match parse_u64(s) {
        Some(v) => if v <= u8::MAX as u64 {
            Some(v as u8)
        } else {
            None
        },
        None => {
            proof {
                if all_digits(s@) {
                    lemma_three_digits(s@);
                }
            }
            None
        },
    }
}

proof fn lemma_three_digits(s: Seq<u8>)
    requires
        all_digits(s),
        s.len() <= 3,
    ensures
        digits_value(s) < 1000,
{
    reveal_with_fuel(digits_value, 4);
}

/// Parses an IPv4 address.
pub fn parse_address(s: &[u8]) -> (r: Option<[u8; 4]>)
    ensures
        r == address_of(s@),
{
    let parts = cut_at_dots(s);
    let ghost p = part_views(parts@);
    if parts.len() != 4 {
        return None;
    }
    assert(p[0] == parts@[0]@ && p[1] == parts@[1]@ && p[2] == parts@[2]@ && p[3] == parts@[3]@);
    let a: u8 = match parse_octet(&parts[0]) {
        Some(v) => v,
        None => return None,
    };
    let b: u8 = match parse_octet(&parts[1]) {
        Some(v) => v,
        None => return None,
    };
    let c: u8 = match parse_octet(&parts[2]) {
        Some(v) => v,
        None => return None,
    };
    let d: u8 = match parse_octet(&parts[3]) {
        Some(v) => v,
        None => return None,
    };
    let address: [u8; 4] = [a, b, c, d];
    assert(address =~= [a, b, c, d]);
    Some(address)
}

impl Config {
    fn standard() -> (r: Self)
        ensures
            r@ == default_config(),
    {
        let r = Self {
            port: 12345,
            wal: to_vec("orderbook.wal".as_bytes()),
            itch_ip: [239, 0, 0, 1],
            itch_port: 5000,
            itch_iface: [127, 0, 0, 1],
            cpu_ingress: 8,
            cpu_engine: 10,
            cpu_egress: 12,
            cpu_itch: 14,
            slab: 1048576,
        };
        assert(r@.itch_ip =~= default_config().itch_ip);
        assert(r@.itch_iface =~= default_config().itch_iface);
        r
    }

    /// Sets one value. `false`, and nothing set, if it is not of the flag's kind.
    fn set(&mut self, flag: Flag, v: &[u8]) -> (r: bool)
        ensures
            match with_value(old(self)@, flag, v@) {
                Some(c) => r && final(self)@ == c,
                None => !r && final(self)@ == old(self)@,
            },
    {
        match flag {
            Flag::Port => match parse_u16(v) {
                Some(n) => {
                    self.port = n;
                    true
                },
                None => false,
            },
            Flag::Wal => {
                self.wal = to_vec(v);
                true
            },
            Flag::ItchIp => match parse_address(v) {
                Some(a) => {
                    self.itch_ip = a;
                    true
                },
                None => false,
            },
            Flag::ItchPort => match parse_u16(v) {
                Some(n) => {
                    self.itch_port = n;
                    true
                },
                None => false,
            },
            Flag::ItchIface => match parse_address(v) {
                Some(a) => {
                    self.itch_iface = a;
                    true
                },
                None => false,
            },
            Flag::CpuIngress => match parse_size(v) {
                Some(n) => {
                    self.cpu_ingress = n;
                    true
                },
                None => false,
            },
            Flag::CpuEngine => match parse_size(v) {
                Some(n) => {
                    self.cpu_engine = n;
                    true
                },
                None => false,
            },
            Flag::CpuEgress => match parse_size(v) {
                Some(n) => {
                    self.cpu_egress = n;
                    true
                },
                None => false,
            },
            Flag::CpuItch => match parse_size(v) {
                Some(n) => {
                    self.cpu_itch = n;
                    true
                },
                None => false,
            },
            Flag::Slab => match parse_size(v) {
                Some(n) => {
                    self.slab = n;
                    true
                },
                None => false,
            },
        }
    }
}

/// Reads the arguments behind the program's name.
pub fn parse_args(args: &Vec<String>) -> (r: Result<Config, Stop>)
    ensures
        match r {
            Ok(c) => configured(default_config(), arg_bytes(args@)) == Ok::<ConfigView, Stop>(c@),
            Err(stop) => configured(default_config(), arg_bytes(args@)) == Err::<ConfigView, Stop>(
                stop,
            ),
        },
{
    let ghost all = arg_bytes(args@);
    let ghost whole = configured(default_config(), all);
    let mut cfg = Config::standard();
    let mut i: usize = 0;
    assert(all.skip(0) =~= all);
    while i < args.len()
        invariant
            i <= args@.len(),
            all == arg_bytes(args@),
            whole == configured(default_config(), all),
            whole == configured(cfg@, all.skip(i as int)),
        decreases args@.len() - i,
    {
        let ghost rest = all.skip(i as int);
        let a = args[i].as_str().as_bytes();
        assert(rest[0] == a@);
        if is(a, "-h") || is(a, "--help") {
            return Err(Stop::Help);
        }
        let flag = match parse_flag(a) {
            Some(flag) => flag,
            None => return Err(Stop::Unknown),
        };
        if i == args.len() - 1 {
            return Err(Stop::MissingValue);
        }
        let v = args[i + 1].as_str().as_bytes();
        assert(rest[1] == v@);
        if !cfg.set(flag, v) {
            return Err(Stop::BadValue);
        }
        assert(rest.skip(2) =~= all.skip(i + 2));
        i = i + 2;
    }
    assert(all.skip(i as int) =~= Seq::empty());
    Ok(cfg)
}

} // verus!
