use vstd::prelude::*;

verus! {

/// The execution paths that a user can request.
#[derive(Clone, Copy, Debug, PartialEq, Eq, Structural)]
pub enum RunType {
    /// Start an HTTP server to resolve addresses to countries on
    /// request.
    Server,
    /// Resolve a given IPv4 address to a country.
    Ipv4,
    /// Resolve a given IPv6 address to a country.
    Ipv6,
    /// The user did not select a path.
    NoneSelected,
}

/// What `get_run_type` decides: an explicit server request wins;
/// otherwise the first of the two address kinds that was supplied.
pub open spec fn run_type_spec(server: Option<bool>, has_ipv4_addr: bool, has_ipv6_addr: bool) -> RunType {
    if server == Some(true) {
        RunType::Server
    } else if has_ipv4_addr {
        RunType::Ipv4
    } else if has_ipv6_addr {
        RunType::Ipv6
    } else {
        RunType::NoneSelected
    }
}

/// Identify what `RunType` the user wants: `server` is the explicit
/// server flag, if any, and the two booleans say whether an IPv4 or an
/// IPv6 address was supplied.
pub fn get_run_type(server: Option<bool>, has_ipv4_addr: bool, has_ipv6_addr: bool) -> (r: RunType)
    ensures
        r == run_type_spec(server, has_ipv4_addr, has_ipv6_addr),
{
    match server {
        Some(true) => {
            return RunType::Server;
        },
        _ => {
        },
    }
    if has_ipv4_addr {
        return RunType::Ipv4;
    }
    if has_ipv6_addr {
        return RunType::Ipv6;
    }
    RunType::NoneSelected
}

/// The first byte of the UTF-8 encoding of a character.
pub open spec fn utf8_first_byte(c: char) -> u8 {
    let u = c as u32;
    if u < 0x80 {
        u as u8
    } else if u < 0x800 {
        (0xC0u32 | (u >> 6u32)) as u8
    } else if u < 0x10000 {
        (0xE0u32 | (u >> 12u32)) as u8
    } else {
        (0xF0u32 | (u >> 18u32)) as u8
    }
}

/// Lossily convert a character to a byte: where the character encodes
/// as multiple UTF-8 bytes, only the first byte is returned.
pub fn char_to_byte(c: char) -> (r: u8)
    ensures
        r == utf8_first_byte(c),
{
    let u = c as u32;
    if u < 0x80 {
        u as u8
    } else if u < 0x800 {
        let b = 0xC0u32 | (u >> 6u32);
        proof {
            assert(b < 0x100) by (bit_vector)
                requires
                    b == 0xC0u32 | (u >> 6u32) && u < 0x800u32,
            ;
        }
        b as u8
    } else if u < 0x10000 {
        let b = 0xE0u32 | (u >> 12u32);
        proof {
            assert(b < 0x100) by (bit_vector)
                requires
                    b == 0xE0u32 | (u >> 12u32) && u < 0x10000u32,
            ;
        }
        b as u8
    } else {
        let b = 0xF0u32 | (u >> 18u32);
        proof {
            assert(b < 0x100) by (bit_vector)
                requires
                    b == 0xF0u32 | (u >> 18u32) && u < 0x110000u32,
            ;
        }
        b as u8
    }
}

} // verus!
