//! What each flag of the command line sets.

use vstd::prelude::*;
use vstd::utf8::{encode_utf8, is_ascii_chars_encode_utf8};

use crate::bytes::{
    all_digits, decimal, digits_value, lemma_decimal_digits, lemma_decimal_round_trip,
};
use crate::cli::{
    address_of, code_of, configured, default_config, flag_of, is_help, octet_of, split_dots,
    unsigned16, unsigned_size, with_value, ConfigView, Flag, Stop,
};

verus! {

/// `-p`
pub open spec fn letter_p() -> Seq<u8> {
    seq![45u8, 112u8]
}

/// `--port`
pub open spec fn word_port() -> Seq<u8> {
    seq![45u8, 45u8, 112u8, 111u8, 114u8, 116u8]
}

/// `-w`
pub open spec fn letter_w() -> Seq<u8> {
    seq![45u8, 119u8]
}

/// `--wal`
pub open spec fn word_wal() -> Seq<u8> {
    seq![45u8, 45u8, 119u8, 97u8, 108u8]
}

/// `--itch-ip`
pub open spec fn word_itch_ip() -> Seq<u8> {
    seq![45u8, 45u8, 105u8, 116u8, 99u8, 104u8, 45u8, 105u8, 112u8]
}

/// `--itch-port`
pub open spec fn word_itch_port() -> Seq<u8> {
    seq![45u8, 45u8, 105u8, 116u8, 99u8, 104u8, 45u8, 112u8, 111u8, 114u8, 116u8]
}

/// `--itch-iface`
pub open spec fn word_itch_iface() -> Seq<u8> {
    seq![45u8, 45u8, 105u8, 116u8, 99u8, 104u8, 45u8, 105u8, 102u8, 97u8, 99u8, 101u8]
}

/// `-i`
pub open spec fn letter_i() -> Seq<u8> {
    seq![45u8, 105u8]
}

/// `--cpu-ingress`
pub open spec fn word_cpu_ingress() -> Seq<u8> {
    seq![45u8, 45u8, 99u8, 112u8, 117u8, 45u8, 105u8, 110u8, 103u8, 114u8, 101u8, 115u8, 115u8]
}

/// `-e`
pub open spec fn letter_e() -> Seq<u8> {
    seq![45u8, 101u8]
}

/// `--cpu-engine`
pub open spec fn word_cpu_engine() -> Seq<u8> {
    seq![45u8, 45u8, 99u8, 112u8, 117u8, 45u8, 101u8, 110u8, 103u8, 105u8, 110u8, 101u8]
}

/// `-o`
pub open spec fn letter_o() -> Seq<u8> {
    seq![45u8, 111u8]
}

/// `--cpu-egress`
pub open spec fn word_cpu_egress() -> Seq<u8> {
    seq![45u8, 45u8, 99u8, 112u8, 117u8, 45u8, 101u8, 103u8, 114u8, 101u8, 115u8, 115u8]
}

/// `-m`
pub open spec fn letter_m() -> Seq<u8> {
    seq![45u8, 109u8]
}

/// `--cpu-itch`
pub open spec fn word_cpu_itch() -> Seq<u8> {
    seq![45u8, 45u8, 99u8, 112u8, 117u8, 45u8, 105u8, 116u8, 99u8, 104u8]
}

/// `--slab`
pub open spec fn word_slab() -> Seq<u8> {
    seq![45u8, 45u8, 115u8, 108u8, 97u8, 98u8]
}

/// `-h`
pub open spec fn letter_h() -> Seq<u8> {
    seq![45u8, 104u8]
}

/// `--help`
pub open spec fn word_help() -> Seq<u8> {
    seq![45u8, 45u8, 104u8, 101u8, 108u8, 112u8]
}

proof fn lemma_texts()
    ensures
        encode_utf8("-p"@) == letter_p(),
        encode_utf8("--port"@) == word_port(),
        encode_utf8("-w"@) == letter_w(),
        encode_utf8("--wal"@) == word_wal(),
        encode_utf8("--itch-ip"@) == word_itch_ip(),
        encode_utf8("--itch-port"@) == word_itch_port(),
        encode_utf8("--itch-iface"@) == word_itch_iface(),
        encode_utf8("-i"@) == letter_i(),
        encode_utf8("--cpu-ingress"@) == word_cpu_ingress(),
        encode_utf8("-e"@) == letter_e(),
        encode_utf8("--cpu-engine"@) == word_cpu_engine(),
        encode_utf8("-o"@) == letter_o(),
        encode_utf8("--cpu-egress"@) == word_cpu_egress(),
        encode_utf8("-m"@) == letter_m(),
        encode_utf8("--cpu-itch"@) == word_cpu_itch(),
        encode_utf8("--slab"@) == word_slab(),
        encode_utf8("-h"@) == letter_h(),
        encode_utf8("--help"@) == word_help(),
{
    reveal_strlit("-p");
    is_ascii_chars_encode_utf8("-p"@);
    assert(encode_utf8("-p"@) =~= letter_p());
    reveal_strlit("--port");
    is_ascii_chars_encode_utf8("--port"@);
    assert(encode_utf8("--port"@) =~= word_port());
    reveal_strlit("-w");
    is_ascii_chars_encode_utf8("-w"@);
    assert(encode_utf8("-w"@) =~= letter_w());
    reveal_strlit("--wal");
    is_ascii_chars_encode_utf8("--wal"@);
    assert(encode_utf8("--wal"@) =~= word_wal());
    reveal_strlit("--itch-ip");
    is_ascii_chars_encode_utf8("--itch-ip"@);
    assert(encode_utf8("--itch-ip"@) =~= word_itch_ip());
    reveal_strlit("--itch-port");
    is_ascii_chars_encode_utf8("--itch-port"@);
    assert(encode_utf8("--itch-port"@) =~= word_itch_port());
    reveal_strlit("--itch-iface");
    is_ascii_chars_encode_utf8("--itch-iface"@);
    assert(encode_utf8("--itch-iface"@) =~= word_itch_iface());
    reveal_strlit("-i");
    is_ascii_chars_encode_utf8("-i"@);
    assert(encode_utf8("-i"@) =~= letter_i());
    reveal_strlit("--cpu-ingress");
    is_ascii_chars_encode_utf8("--cpu-ingress"@);
    assert(encode_utf8("--cpu-ingress"@) =~= word_cpu_ingress());
    reveal_strlit("-e");
    is_ascii_chars_encode_utf8("-e"@);
    assert(encode_utf8("-e"@) =~= letter_e());
    reveal_strlit("--cpu-engine");
    is_ascii_chars_encode_utf8("--cpu-engine"@);
    assert(encode_utf8("--cpu-engine"@) =~= word_cpu_engine());
    reveal_strlit("-o");
    is_ascii_chars_encode_utf8("-o"@);
    assert(encode_utf8("-o"@) =~= letter_o());
    reveal_strlit("--cpu-egress");
    is_ascii_chars_encode_utf8("--cpu-egress"@);
    assert(encode_utf8("--cpu-egress"@) =~= word_cpu_egress());
    reveal_strlit("-m");
    is_ascii_chars_encode_utf8("-m"@);
    assert(encode_utf8("-m"@) =~= letter_m());
    reveal_strlit("--cpu-itch");
    is_ascii_chars_encode_utf8("--cpu-itch"@);
    assert(encode_utf8("--cpu-itch"@) =~= word_cpu_itch());
    reveal_strlit("--slab");
    is_ascii_chars_encode_utf8("--slab"@);
    assert(encode_utf8("--slab"@) =~= word_slab());
    reveal_strlit("-h");
    is_ascii_chars_encode_utf8("-h"@);
    assert(encode_utf8("-h"@) =~= letter_h());
    reveal_strlit("--help");
    is_ascii_chars_encode_utf8("--help"@);
    assert(encode_utf8("--help"@) =~= word_help());
}

proof fn lemma_texts_differ()
    ensures
        letter_p().len() == 2,
        word_port().len() == 6,
        letter_w().len() == 2,
        word_wal().len() == 5,
        word_itch_ip().len() == 9,
        word_itch_port().len() == 11,
        word_itch_iface().len() == 12,
        letter_i().len() == 2,
        word_cpu_ingress().len() == 13,
        letter_e().len() == 2,
        word_cpu_engine().len() == 12,
        letter_o().len() == 2,
        word_cpu_egress().len() == 12,
        letter_m().len() == 2,
        word_cpu_itch().len() == 10,
        word_slab().len() == 6,
        letter_h().len() == 2,
        word_help().len() == 6,
        letter_p() != letter_w(),
        letter_p() != letter_i(),
        letter_p() != letter_e(),
        letter_p() != letter_o(),
        letter_p() != letter_m(),
        letter_p() != letter_h(),
        letter_w() != letter_i(),
        letter_w() != letter_e(),
        letter_w() != letter_o(),
        letter_w() != letter_m(),
        letter_w() != letter_h(),
        letter_i() != letter_e(),
        letter_i() != letter_o(),
        letter_i() != letter_m(),
        letter_i() != letter_h(),
        letter_e() != letter_o(),
        letter_e() != letter_m(),
        letter_e() != letter_h(),
        letter_o() != letter_m(),
        letter_o() != letter_h(),
        letter_m() != letter_h(),
        word_port() != word_slab(),
        word_port() != word_help(),
        word_slab() != word_help(),
        word_itch_iface() != word_cpu_engine(),
        word_itch_iface() != word_cpu_egress(),
        word_cpu_engine() != word_cpu_egress(),
{
    assert(letter_p()[1] != letter_w()[1]);
    assert(letter_p()[1] != letter_i()[1]);
    assert(letter_p()[1] != letter_e()[1]);
    assert(letter_p()[1] != letter_o()[1]);
    assert(letter_p()[1] != letter_m()[1]);
    assert(letter_p()[1] != letter_h()[1]);
    assert(letter_w()[1] != letter_i()[1]);
    assert(letter_w()[1] != letter_e()[1]);
    assert(letter_w()[1] != letter_o()[1]);
    assert(letter_w()[1] != letter_m()[1]);
    assert(letter_w()[1] != letter_h()[1]);
    assert(letter_i()[1] != letter_e()[1]);
    assert(letter_i()[1] != letter_o()[1]);
    assert(letter_i()[1] != letter_m()[1]);
    assert(letter_i()[1] != letter_h()[1]);
    assert(letter_e()[1] != letter_o()[1]);
    assert(letter_e()[1] != letter_m()[1]);
    assert(letter_e()[1] != letter_h()[1]);
    assert(letter_o()[1] != letter_m()[1]);
    assert(letter_o()[1] != letter_h()[1]);
    assert(letter_m()[1] != letter_h()[1]);
    assert(word_port()[2] != word_slab()[2]);
    assert(word_port()[2] != word_help()[2]);
    assert(word_slab()[2] != word_help()[2]);
    assert(word_itch_iface()[2] != word_cpu_engine()[2]);
    assert(word_itch_iface()[2] != word_cpu_egress()[2]);
    assert(word_cpu_engine()[7] != word_cpu_egress()[7]);
}

proof fn lemma_flags(a: Seq<u8>)
    ensures
        is_help(a) == (a == letter_h() || a == word_help()),
        (a == letter_p() || a == word_port()) == (flag_of(a) == Some(Flag::Port)),
        (a == letter_w() || a == word_wal()) == (flag_of(a) == Some(Flag::Wal)),
        (a == word_itch_ip()) == (flag_of(a) == Some(Flag::ItchIp)),
        (a == word_itch_port()) == (flag_of(a) == Some(Flag::ItchPort)),
        (a == word_itch_iface()) == (flag_of(a) == Some(Flag::ItchIface)),
        (a == letter_i() || a == word_cpu_ingress()) == (flag_of(a) == Some(Flag::CpuIngress)),
        (a == letter_e() || a == word_cpu_engine()) == (flag_of(a) == Some(Flag::CpuEngine)),
        (a == letter_o() || a == word_cpu_egress()) == (flag_of(a) == Some(Flag::CpuEgress)),
        (a == letter_m() || a == word_cpu_itch()) == (flag_of(a) == Some(Flag::CpuItch)),
        (a == word_slab()) == (flag_of(a) == Some(Flag::Slab)),
        is_help(a) ==> flag_of(a) is None,
{
    lemma_texts();
    lemma_texts_differ();
}

proof fn lemma_takes_a_value(c: ConfigView, a: Seq<u8>, v: Seq<u8>, rest: Seq<Seq<u8>>)
    requires
        flag_of(a) is Some,
        !is_help(a),
    ensures
        configured(c, seq![a, v] + rest) == (match with_value(c, flag_of(a)->0, v) {
            Some(next) => configured(next, rest),
            None => Err(Stop::BadValue),
        }),
        configured(c, seq![a]) == Err::<ConfigView, Stop>(Stop::MissingValue),
{
    let args = seq![a, v] + rest;
    assert(args[0] == a && args[1] == v);
    assert(args.skip(2) =~= rest);
    assert(seq![a][0] == a);
}

proof fn lemma_sizes(n: usize)
    ensures
        unsigned_size(decimal(n as nat)) == Some(n),
{
    lemma_decimal_round_trip(n as u64);
}

proof fn lemma_ports(n: u16)
    ensures
        unsigned16(decimal(n as nat)) == Some(n),
{
    lemma_decimal_round_trip(n as u64);
}

/// Four octets with dots between them.
pub open spec fn dotted(a: u8, b: u8, c: u8, d: u8) -> Seq<u8> {
    decimal(a as nat) + seq![46u8] + decimal(b as nat) + seq![46u8] + decimal(c as nat)
        + seq![46u8] + decimal(d as nat)
}

proof fn lemma_octet(n: u8)
    ensures
        octet_of(decimal(n as nat)) == Some(n),
        no_dot(decimal(n as nat)),
{
    let d = decimal(n as nat);
    lemma_decimal_digits(n as nat);
    reveal_with_fuel(decimal, 4);
    assert(1 <= d.len() <= 3);
    assert(d.len() == 1 || d[0] != 48);
}

/// Whether a text has no dot in it.
pub open spec fn no_dot(t: Seq<u8>) -> bool {
    forall|i: int| 0 <= i < t.len() ==> #[trigger] t[i] != 46
}

/// What stands behind the last dot is the last part.
proof fn lemma_last_part(s: Seq<u8>, t: Seq<u8>)
    requires
        no_dot(t),
    ensures
        split_dots(s + seq![46u8] + t) == split_dots(s).push(t),
    decreases t.len(),
{
    let all = s + seq![46u8] + t;
    if t.len() == 0 {
        assert(all.drop_last() =~= s);
        assert(all.last() == 46);
        assert(t =~= Seq::empty());
    } else {
        let u = t.drop_last();
        assert forall|i: int| 0 <= i < u.len() implies #[trigger] u[i] != 46 by {
            assert(u[i] == t[i]);
        }
        lemma_last_part(s, u);
        assert(all.drop_last() =~= s + seq![46u8] + u);
        assert(t[t.len() - 1] != 46);
        assert(all.last() == t.last());
        assert(u.push(t.last()) =~= t);
        assert(split_dots(s).push(u).drop_last() =~= split_dots(s));
    }
}

proof fn lemma_only_part(t: Seq<u8>)
    requires
        no_dot(t),
    ensures
        split_dots(t) == seq![t],
    decreases t.len(),
{
    if t.len() > 0 {
        let u = t.drop_last();
        assert forall|i: int| 0 <= i < u.len() implies #[trigger] u[i] != 46 by {
            assert(u[i] == t[i]);
        }
        lemma_only_part(u);
        assert(t[t.len() - 1] != 46);
        assert(u.push(t.last()) =~= t);
        assert(seq![u].drop_last().push(t) =~= seq![t]);
    } else {
        assert(t =~= Seq::empty());
    }
}

/// A text of four parts, none with a dot in it, is an address exactly when each part is an
/// octet, and then of those octets, in order. A text of fewer parts is none.
pub proof fn lemma_address_is_four_octets(p: Seq<u8>, q: Seq<u8>, r: Seq<u8>, t: Seq<u8>)
    requires
        no_dot(p) && no_dot(q) && no_dot(r) && no_dot(t),
    ensures
        ({
            let s = p + seq![46u8] + q + seq![46u8] + r + seq![46u8] + t;
            match (octet_of(p), octet_of(q), octet_of(r), octet_of(t)) {
                (Some(a), Some(b), Some(c), Some(d)) => address_of(s) == Some([a, b, c, d]),
                _ => address_of(s) is None,
            }
        }),
        address_of(p + seq![46u8] + q + seq![46u8] + r) is None,
        address_of(p + seq![46u8] + q) is None,
        address_of(p) is None,
{
    let s2 = p + seq![46u8] + q;
    let s3 = s2 + seq![46u8] + r;
    lemma_only_part(p);
    lemma_last_part(p, q);
    lemma_last_part(s2, r);
    lemma_last_part(s3, t);
    let s = p + seq![46u8] + q + seq![46u8] + r + seq![46u8] + t;
    assert(s =~= s3 + seq![46u8] + t);
    assert(p + seq![46u8] + q + seq![46u8] + r =~= s3);
    let parts = split_dots(s);
    assert(parts[0] == p && parts[1] == q && parts[2] == r && parts[3] == t);
}

/// A text of more than four parts is no address.
pub proof fn lemma_five_parts_are_no_address(s: Seq<u8>, t: Seq<u8>)
    requires
        no_dot(t),
        address_of(s) is Some,
    ensures
        address_of(s + seq![46u8] + t) is None,
{
    lemma_last_part(s, t);
}

/// An octet is up to three digits, without a zero in front, of at most 255.
pub proof fn lemma_octets(s: Seq<u8>)
    ensures
        (octet_of(s) is Some) == (1 <= s.len() <= 3 && all_digits(s) && (s.len() == 1 || s[0] != 48)
            && digits_value(s) <= 255),
        octet_of(s) matches Some(n) ==> n == digits_value(s),
{
}

/// An address is read octet by octet, in order.
pub proof fn lemma_address_is_its_octets(a: u8, b: u8, c: u8, d: u8)
    ensures
        address_of(dotted(a, b, c, d)) == Some([a, b, c, d]),
{
    lemma_octet(a);
    lemma_octet(b);
    lemma_octet(c);
    lemma_octet(d);
    lemma_address_is_four_octets(
        decimal(a as nat),
        decimal(b as nat),
        decimal(c as nat),
        decimal(d as nat),
    );
}

/// The port to listen on.
/// It is set, and nothing else, by `-p` or `--port` and a value.
pub proof fn lemma_port_is_set(c: ConfigView, a: Seq<u8>, n: u16, rest: Seq<Seq<u8>>)
    requires
        a == letter_p() || a == word_port(),
    ensures
        configured(c, seq![a, decimal(n as nat)] + rest) == configured(
            ConfigView { port: n, ..c },
            rest,
        ),
        configured(c, seq![a]) == Err::<ConfigView, Stop>(Stop::MissingValue),
{
    lemma_flags(a);
    lemma_ports(n);
    lemma_takes_a_value(c, a, decimal(n as nat), rest);
}

/// The path of the log.
/// It is set, and nothing else, by `-w` or `--wal` and a value.
pub proof fn lemma_wal_is_set(c: ConfigView, a: Seq<u8>, v: Seq<u8>, rest: Seq<Seq<u8>>)
    requires
        a == letter_w() || a == word_wal(),
    ensures
        configured(c, seq![a, v] + rest) == configured(
            ConfigView { wal: v, ..c },
            rest,
        ),
        configured(c, seq![a]) == Err::<ConfigView, Stop>(Stop::MissingValue),
{
    lemma_flags(a);
    lemma_takes_a_value(c, a, v, rest);
}

/// The group that the tape goes to.
/// It is set, and nothing else, by `--itch-ip` and a value.
pub proof fn lemma_itch_ip_is_set(
    c: ConfigView,
    a: Seq<u8>,
    w: u8,
    x: u8,
    y: u8,
    z: u8,
    rest: Seq<Seq<u8>>,
)
    requires
        a == word_itch_ip(),
    ensures
        configured(c, seq![a, dotted(w, x, y, z)] + rest) == configured(
            ConfigView { itch_ip: [w, x, y, z], ..c },
            rest,
        ),
        configured(c, seq![a]) == Err::<ConfigView, Stop>(Stop::MissingValue),
{
    lemma_flags(a);
    lemma_address_is_its_octets(w, x, y, z);
    lemma_takes_a_value(c, a, dotted(w, x, y, z), rest);
}

/// The port that the tape goes to.
/// It is set, and nothing else, by `--itch-port` and a value.
pub proof fn lemma_itch_port_is_set(c: ConfigView, a: Seq<u8>, n: u16, rest: Seq<Seq<u8>>)
    requires
        a == word_itch_port(),
    ensures
        configured(c, seq![a, decimal(n as nat)] + rest) == configured(
            ConfigView { itch_port: n, ..c },
            rest,
        ),
        configured(c, seq![a]) == Err::<ConfigView, Stop>(Stop::MissingValue),
{
    lemma_flags(a);
    lemma_ports(n);
    lemma_takes_a_value(c, a, decimal(n as nat), rest);
}

/// The interface that the tape leaves by.
/// It is set, and nothing else, by `--itch-iface` and a value.
pub proof fn lemma_itch_iface_is_set(
    c: ConfigView,
    a: Seq<u8>,
    w: u8,
    x: u8,
    y: u8,
    z: u8,
    rest: Seq<Seq<u8>>,
)
    requires
        a == word_itch_iface(),
    ensures
        configured(c, seq![a, dotted(w, x, y, z)] + rest) == configured(
            ConfigView { itch_iface: [w, x, y, z], ..c },
            rest,
        ),
        configured(c, seq![a]) == Err::<ConfigView, Stop>(Stop::MissingValue),
{
    lemma_flags(a);
    lemma_address_is_its_octets(w, x, y, z);
    lemma_takes_a_value(c, a, dotted(w, x, y, z), rest);
}

/// The processor of the reading thread.
/// It is set, and nothing else, by `-i` or `--cpu-ingress` and a value.
pub proof fn lemma_cpu_ingress_is_set(c: ConfigView, a: Seq<u8>, n: usize, rest: Seq<Seq<u8>>)
    requires
        a == letter_i() || a == word_cpu_ingress(),
    ensures
        configured(c, seq![a, decimal(n as nat)] + rest) == configured(
            ConfigView { cpu_ingress: n, ..c },
            rest,
        ),
        configured(c, seq![a]) == Err::<ConfigView, Stop>(Stop::MissingValue),
{
    lemma_flags(a);
    lemma_sizes(n);
    lemma_takes_a_value(c, a, decimal(n as nat), rest);
}

/// The processor of the engine.
/// It is set, and nothing else, by `-e` or `--cpu-engine` and a value.
pub proof fn lemma_cpu_engine_is_set(c: ConfigView, a: Seq<u8>, n: usize, rest: Seq<Seq<u8>>)
    requires
        a == letter_e() || a == word_cpu_engine(),
    ensures
        configured(c, seq![a, decimal(n as nat)] + rest) == configured(
            ConfigView { cpu_engine: n, ..c },
            rest,
        ),
        configured(c, seq![a]) == Err::<ConfigView, Stop>(Stop::MissingValue),
{
    lemma_flags(a);
    lemma_sizes(n);
    lemma_takes_a_value(c, a, decimal(n as nat), rest);
}

/// The processor of the answering thread.
/// It is set, and nothing else, by `-o` or `--cpu-egress` and a value.
pub proof fn lemma_cpu_egress_is_set(c: ConfigView, a: Seq<u8>, n: usize, rest: Seq<Seq<u8>>)
    requires
        a == letter_o() || a == word_cpu_egress(),
    ensures
        configured(c, seq![a, decimal(n as nat)] + rest) == configured(
            ConfigView { cpu_egress: n, ..c },
            rest,
        ),
        configured(c, seq![a]) == Err::<ConfigView, Stop>(Stop::MissingValue),
{
    lemma_flags(a);
    lemma_sizes(n);
    lemma_takes_a_value(c, a, decimal(n as nat), rest);
}

/// The processor of the tape.
/// It is set, and nothing else, by `-m` or `--cpu-itch` and a value.
pub proof fn lemma_cpu_itch_is_set(c: ConfigView, a: Seq<u8>, n: usize, rest: Seq<Seq<u8>>)
    requires
        a == letter_m() || a == word_cpu_itch(),
    ensures
        configured(c, seq![a, decimal(n as nat)] + rest) == configured(
            ConfigView { cpu_itch: n, ..c },
            rest,
        ),
        configured(c, seq![a]) == Err::<ConfigView, Stop>(Stop::MissingValue),
{
    lemma_flags(a);
    lemma_sizes(n);
    lemma_takes_a_value(c, a, decimal(n as nat), rest);
}

/// The size of the book.
/// It is set, and nothing else, by `--slab` and a value.
pub proof fn lemma_slab_is_set(c: ConfigView, a: Seq<u8>, n: usize, rest: Seq<Seq<u8>>)
    requires
        a == word_slab(),
    ensures
        configured(c, seq![a, decimal(n as nat)] + rest) == configured(
            ConfigView { slab: n, ..c },
            rest,
        ),
        configured(c, seq![a]) == Err::<ConfigView, Stop>(Stop::MissingValue),
{
    lemma_flags(a);
    lemma_sizes(n);
    lemma_takes_a_value(c, a, decimal(n as nat), rest);
}

/// With no more arguments the configuration stands.
pub proof fn lemma_nothing_left(c: ConfigView)
    ensures
        configured(c, Seq::empty()) == Ok::<ConfigView, Stop>(c),
{
}

/// Help is given whenever it is asked for first.
pub proof fn lemma_help_is_given(c: ConfigView, a: Seq<u8>, rest: Seq<Seq<u8>>)
    requires
        a == letter_h() || a == word_help(),
    ensures
        configured(c, seq![a] + rest) == Err::<ConfigView, Stop>(Stop::Help),
{
    lemma_flags(a);
    assert((seq![a] + rest)[0] == a);
}

/// Whether an argument is a flag or asks for help.
pub open spec fn is_known(a: Seq<u8>) -> bool {
    ||| a == letter_p()
    ||| a == word_port()
    ||| a == letter_w()
    ||| a == word_wal()
    ||| a == word_itch_ip()
    ||| a == word_itch_port()
    ||| a == word_itch_iface()
    ||| a == letter_i()
    ||| a == word_cpu_ingress()
    ||| a == letter_e()
    ||| a == word_cpu_engine()
    ||| a == letter_o()
    ||| a == word_cpu_egress()
    ||| a == letter_m()
    ||| a == word_cpu_itch()
    ||| a == word_slab()
    ||| a == letter_h()
    ||| a == word_help()
}

/// What is no flag stops the program.
pub proof fn lemma_unknown_argument_stops(c: ConfigView, a: Seq<u8>, rest: Seq<Seq<u8>>)
    requires
        !is_known(a),
    ensures
        configured(c, seq![a] + rest) == Err::<ConfigView, Stop>(Stop::Unknown),
{
    lemma_flags(a);
    assert((seq![a] + rest)[0] == a);
    assert(flag_of(a) is None) by {
        if let Some(flag) = flag_of(a) {
            match flag {
                Flag::Port => {},
                Flag::Wal => {},
                Flag::ItchIp => {},
                Flag::ItchPort => {},
                Flag::ItchIface => {},
                Flag::CpuIngress => {},
                Flag::CpuEngine => {},
                Flag::CpuEgress => {},
                Flag::CpuItch => {},
                Flag::Slab => {},
            }
        }
    }
}

/// A port or a size that has anything but digits in it is a bad value.
pub proof fn lemma_bad_number_stops(
    c: ConfigView,
    a: Seq<u8>,
    v: Seq<u8>,
    rest: Seq<Seq<u8>>,
    i: int,
)
    requires
        is_known(a),
        a != letter_h() && a != word_help() && a != letter_w() && a != word_wal(),
        a != word_itch_ip() && a != word_itch_iface(),
        1 <= i < v.len(),
        !(48 <= v[i] <= 57),
    ensures
        configured(c, seq![a, v] + rest) == Err::<ConfigView, Stop>(Stop::BadValue),
{
    lemma_flags(a);
    lemma_takes_a_value(c, a, v, rest);
    let d = crate::bytes::unsigned_digits(v);
    if v[0] == 43 {
        assert(d[i - 1] == v[i]);
    } else {
        assert(d[i] == v[i]);
    }
    assert(!all_digits(d));
}

/// A port beyond sixteen bits is a bad value.
pub proof fn lemma_large_port_stops(c: ConfigView, a: Seq<u8>, n: u64, rest: Seq<Seq<u8>>)
    requires
        a == letter_p() || a == word_port() || a == word_itch_port(),
        n > 65535,
    ensures
        configured(c, seq![a, decimal(n as nat)] + rest) == Err::<ConfigView, Stop>(Stop::BadValue),
{
    lemma_flags(a);
    lemma_takes_a_value(c, a, decimal(n as nat), rest);
    lemma_decimal_round_trip(n);
}

/// What runs when nothing is asked for.
pub proof fn lemma_what_runs_by_default()
    ensures
        ({
            let c = default_config();
            &&& c.port == 12345
            &&& c.wal == seq![
                111u8, 114u8, 100u8, 101u8, 114u8, 98u8, 111u8, 111u8, 107u8, 46u8, 119u8, 97u8,
                108u8,
            ]
            &&& c.itch_ip@ == seq![239u8, 0u8, 0u8, 1u8]
            &&& c.itch_port == 5000
            &&& c.itch_iface@ == seq![127u8, 0u8, 0u8, 1u8]
            &&& c.cpu_ingress == 8 && c.cpu_engine == 10 && c.cpu_egress == 12 && c.cpu_itch == 14
            &&& c.slab == 1048576
        }),
{
    reveal_strlit("orderbook.wal");
    is_ascii_chars_encode_utf8("orderbook.wal"@);
    let c = default_config();
    assert(c.wal =~= seq![
        111u8, 114u8, 100u8, 101u8, 114u8, 98u8, 111u8, 111u8, 107u8, 46u8, 119u8, 97u8, 108u8,
    ]);
    assert(c.itch_ip@ =~= seq![239u8, 0u8, 0u8, 1u8]);
    assert(c.itch_iface@ =~= seq![127u8, 0u8, 0u8, 1u8]);
}

/// Help ends the program well, a mistake in the flags does not, and a bad value is a crash.
pub proof fn lemma_exit_codes(stop: Stop)
    ensures
        (code_of(stop) == Some(0i32)) == (stop == Stop::Help),
        (code_of(stop) == Some(2i32)) == (stop == Stop::MissingValue || stop == Stop::Unknown),
        (code_of(stop) is None) == (stop == Stop::BadValue),
{
}

} // verus!
