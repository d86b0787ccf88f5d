//! The calls into outside crates that the logic makes, each behind a contract.

use crate::model::{prefix_fits, IpAddr};
use crate::text::{decimal, hex};
use vstd::prelude::*;
use vstd::utf8::{decode_utf8, valid_utf8};

verus! {

/// The address and prefix length that `ipnet` reads in a text.
pub uninterp spec fn parsed_net(s: Seq<char>) -> Option<(IpAddr, u8)>;

/// What `ipnet` says of a text it cannot read.
pub const BAD_NET: &'static str = "invalid IP address syntax";

/// `ipnet::IpNet::from_str`: the address and prefix length it reads, which
/// depend on the text alone. A prefix length that it reads fits the address's
/// family; its error always says the same.
#[verifier::external_body]
pub(crate) fn parse_net(s: &str) -> (r: Result<(IpAddr, u8), String>)
    ensures
        r matches Ok(n) ==> parsed_net(s@) == Some(n) && prefix_fits(n.0, n.1),
        r matches Err(e) ==> parsed_net(s@) is None && e@ == BAD_NET@,
{
    match s.parse::<ipnet::IpNet>() {
        Ok(ipnet::IpNet::V4(n)) => Ok((IpAddr::V4(u32::from(n.addr())), n.prefix_len())),
        Ok(ipnet::IpNet::V6(n)) => Ok((IpAddr::V6(u128::from(n.addr())), n.prefix_len())),
        Err(e) => Err(e.to_string()),
    }
}

/// The text of an IPv6 address.
pub uninterp spec fn ip6_text(a: u128) -> Seq<char>;

/// The `Display` of the address inside an `ipnet::Ipv6Net`: the text of an IPv6
/// address, which depends on the address alone.
#[verifier::external_body]
pub(crate) fn ip6_string(a: u128) -> (r: String)
    ensures
        r@ == ip6_text(a),
{
    ipnet::Ipv6Net::new(a.into(), 128).unwrap().addr().to_string()
}

/// An address written out.
pub open spec fn ip_text(ip: IpAddr) -> Seq<char> {
    match ip {
        IpAddr::V4(a) => decimal((a as nat / 0x100_0000) % 256) + "."@ + decimal(
            (a as nat / 0x1_0000) % 256,
        ) + "."@ + decimal((a as nat / 0x100) % 256) + "."@ + decimal(a as nat % 256),
        IpAddr::V6(a) => ip6_text(a),
    }
}

/// A network written out: its address, a slash and the prefix length.
pub open spec fn net_text(addr: IpAddr, prefix: u8) -> Seq<char> {
    ip_text(addr) + "/"@ + decimal(prefix as nat)
}

/// `ipnet::Ipv4Net::new` and `ipnet::Ipv6Net::new`, then `Display`: the address,
/// a slash and the prefix length, which `from_str` reads back as the same
/// network.
#[verifier::external_body]
pub(crate) fn net_string(addr: IpAddr, prefix: u8) -> (r: String)
    requires
        prefix_fits(addr, prefix),
    ensures
        r@ == net_text(addr, prefix),
        parsed_net(r@) == Some((addr, prefix)),
{
    match addr {
        IpAddr::V4(a) => ipnet::Ipv4Net::new(a.into(), prefix).unwrap().to_string(),
        IpAddr::V6(a) => ipnet::Ipv6Net::new(a.into(), prefix).unwrap().to_string(),
    }
}

/// An identifier written out: 32 lower-case hexadecimal digits in groups of
/// 8, 4, 4, 4 and 12.
pub open spec fn uuid_text(id: u128) -> Seq<char> {
    hex(id as nat / 0x1_0000_0000_0000_0000_0000_0000, 8) + "-"@ + hex(
        id as nat / 0x1_0000_0000_0000_0000_0000,
        4,
    ) + "-"@ + hex(id as nat / 0x1_0000_0000_0000_0000, 4) + "-"@ + hex(
        id as nat / 0x1_0000_0000_0000,
        4,
    ) + "-"@ + hex(id as nat, 12)
}

/// The identifier that `uuid` reads in a text, or what it says of one it cannot
/// read.
pub uninterp spec fn parsed_uuid(s: Seq<char>) -> Result<u128, Seq<char>>;

/// A result with its error as text.
pub open spec fn plain(r: Result<u128, String>) -> Result<u128, Seq<char>> {
    match r {
        Ok(id) => Ok(id),
        Err(e) => Err(e@),
    }
}

/// The identifier `id`, read.
pub open spec fn id_read(id: u128) -> Result<u128, Seq<char>> {
    Ok(id)
}

/// `uuid::Uuid::parse_str`: the identifier it reads, or its error's text; both
/// depend on the text alone.
#[verifier::external_body]
pub(crate) fn parse_uuid(s: &str) -> (r: Result<u128, String>)
    ensures
        parsed_uuid(s@) == plain(r),
{
    match uuid::Uuid::parse_str(s) {
        Ok(u) => Ok(u.as_u128()),
        Err(e) => Err(e.to_string()),
    }
}

/// `uuid::Uuid`'s `Display`: the hyphenated lower-case form, which `parse_str`
/// reads back.
#[verifier::external_body]
pub(crate) fn uuid_string(id: u128) -> (r: String)
    ensures
        r@ == uuid_text(id),
        parsed_uuid(r@) == id_read(id),
{
    uuid::Uuid::from_u128(id).to_string()
}

/// Whether an identifier has the version and variant bits of a random one.
pub open spec fn is_random_id(id: u128) -> bool {
    (id >> 76) & 0xf == 4 && (id >> 62) & 0x3 == 2
}

/// `uuid::Uuid::new_v4`: a random identifier, of which only the version and
/// variant bits are known.
#[verifier::external_body]
pub(crate) fn fresh_uuid() -> (r: u128)
    ensures
        is_random_id(r),
{
    uuid::Uuid::new_v4().as_u128()
}

/// The first millisecond of `chrono`'s calendar, at the start of the year
/// -262143.
pub const CALENDAR_FIRST_MS: i64 = -8_334_601_228_800_000;

/// The last millisecond of `chrono`'s calendar, at the end of the year 262142.
pub const CALENDAR_LAST_MS: i64 = 8_210_266_876_799_999;

/// Whether a Unix time in milliseconds lies in `chrono`'s calendar.
pub open spec fn in_calendar(ms: i64) -> bool {
    CALENDAR_FIRST_MS <= ms <= CALENDAR_LAST_MS
}

/// `chrono::DateTime::from_timestamp_millis`, read back with
/// `timestamp_millis`: the same number, or nothing for one outside the
/// calendar.
#[verifier::external_body]
pub(crate) fn calendar_time(ms: i64) -> (r: Option<i64>)
    ensures
        r is Some <==> in_calendar(ms),
        r matches Some(t) ==> t == ms,
{
    chrono::DateTime::from_timestamp_millis(ms).map(|t| t.timestamp_millis())
}

/// What `String::from_utf8_lossy` makes of a byte run.
pub uninterp spec fn lossy_text(bytes: Seq<u8>) -> Seq<char>;

/// `String::from_utf8_lossy`: the text of valid UTF-8, and for other bytes a
/// text that depends on them alone.
#[verifier::external_body]
pub(crate) fn lossy(bytes: &[u8]) -> (r: String)
    ensures
        r@ == lossy_text(bytes@),
        valid_utf8(bytes@) ==> r@ == decode_utf8(bytes@),
{
    String::from_utf8_lossy(bytes).into_owned()
}

} // verus!
