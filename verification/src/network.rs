//! Network addresses and their wire form: a one-byte discriminant, then the
//! address bytes.
use crate::codec::Codec;
use crate::decoder::{and_then, mapped, spec_read_bytes, spec_read_u8, Budget, Decode, DecodeError, Decoded, Reader};
use crate::encoder::{emit, EncodeError, Emitted, Encode, Writer};
use vstd::prelude::*;

verus! {

/// IpAddr: a one-byte discriminant (`0` for the 4-byte form, `1` for the
/// 16-byte form), then the raw bytes.
#[derive(Debug, Clone, Copy, PartialEq, Eq)]
pub enum IpAddr {
    /// An IPv4 address.
    V4([u8; 4]),
    /// An IPv6 address.
    V6([u8; 16]),
}

/// What a [`IpAddr`] denotes: which form, and its bytes.
pub enum IpAddrModel {
    /// An IPv4 address.
    V4(Seq<u8>),
    /// An IPv6 address.
    V6(Seq<u8>),
}

impl DeepView for IpAddr {
    type V = IpAddrModel;

    open spec fn deep_view(&self) -> IpAddrModel {
        match self {
            IpAddr::V4(b) => IpAddrModel::V4(b@),
            IpAddr::V6(b) => IpAddrModel::V6(b@),
        }
    }
}

/// The bytes that follow discriminant `t`.
pub open spec fn spec_decode_ip_addr_payload(t: u8, s: Seq<u8>) -> Decoded<IpAddrModel> {
    if t == 0 {
        mapped(spec_read_bytes(s, 4), |b: Seq<u8>| IpAddrModel::V4(b))
    } else if t == 1 {
        mapped(spec_read_bytes(s, 16), |b: Seq<u8>| IpAddrModel::V6(b))
    } else {
        (Err(DecodeError::InvalidVariant { kind: "IpAddr", seen: t as u32 }), 0)
    }
}

impl Encode for IpAddr {
    open spec fn spec_encode(m: IpAddrModel) -> Emitted {
        match m {
            IpAddrModel::V4(b) => emit(seq![0u8] + b),
            IpAddrModel::V6(b) => emit(seq![1u8] + b),
        }
    }

    fn encode(&self, writer: &mut Writer) -> (res: Result<(), EncodeError>) {
        match self {
            IpAddr::V4(b) => {
                writer.write_u8(0)?;
                writer.write_array(b)
            },
            IpAddr::V6(b) => {
                writer.write_u8(1)?;
                writer.write_array(b)
            },
        }
    }
}

impl Decode for IpAddr {
    open spec fn spec_decode(s: Seq<u8>) -> Decoded<IpAddrModel> {
        and_then(spec_read_u8(s), s, |t: u8, rest: Seq<u8>| spec_decode_ip_addr_payload(t, rest))
    }

    proof fn lemma_decode_within(s: Seq<u8>) {
    }

    proof fn lemma_decode_local(s: Seq<u8>, t: Seq<u8>) {
        let n = Self::spec_decode(s).1;
        let u = s.take(n as int) + t;
        assert(u[0] == s[0]);
        assert(u.skip(1) =~= s.skip(1).take(n - 1) + t);
        assert((s.skip(1).take(n - 1) + t).take(n - 1) =~= s.skip(1).take(n - 1));
    }

    open spec fn spec_need(s: Seq<u8>) -> nat {
        0
    }

    fn decode(reader: &mut Reader<'_>, budget: &mut Budget) -> (res: Result<IpAddr, DecodeError>) {
        let ghost r0 = *reader;
        let t = reader.read_u8()?;
        proof {
            r0.lemma_rest_after(*reader, 1);
        }
        if t == 0 {
            let b = reader.read_array::<4>()?;
            Ok(IpAddr::V4(b))
        } else if t == 1 {
            let b = reader.read_array::<16>()?;
            Ok(IpAddr::V6(b))
        } else {
            Err(DecodeError::InvalidVariant { kind: "IpAddr", seen: t as u32 })
        }
    }
}

/// The stable wire forms of IP addresses: an IPv4 address is byte 0 then
/// its four bytes, an IPv6 address byte 1 then its sixteen; bytes opening
/// with 0 read back as IPv4 and with 1 as IPv6.
pub proof fn lemma_ip_addr_discriminants(m: IpAddrModel, s: Seq<u8>)
    ensures
        m matches IpAddrModel::V4(b) ==> <IpAddr as Encode>::spec_encode(m) == emit(seq![0u8] + b),
        m matches IpAddrModel::V6(b) ==> <IpAddr as Encode>::spec_encode(m) == emit(seq![1u8] + b),
        <IpAddr as Decode>::spec_decode(seq![0u8] + s).0 == match spec_read_bytes(s, 4).0 {
            Ok(b) => Ok::<IpAddrModel, DecodeError>(IpAddrModel::V4(b)),
            Err(e) => Err(e),
        },
        <IpAddr as Decode>::spec_decode(seq![1u8] + s).0 == match spec_read_bytes(s, 16).0 {
            Ok(b) => Ok::<IpAddrModel, DecodeError>(IpAddrModel::V6(b)),
            Err(e) => Err(e),
        },
{
    assert((seq![0u8] + s).skip(1) =~= s);
    assert((seq![1u8] + s).skip(1) =~= s);
}

impl Codec for IpAddr {
    open spec fn spec_fits(m: IpAddrModel) -> bool {
        match m {
            IpAddrModel::V4(b) => b.len() == 4,
            IpAddrModel::V6(b) => b.len() == 16,
        }
    }

    proof fn lemma_round_trip(m: IpAddrModel, tail: Seq<u8>) {
        match m {
            IpAddrModel::V4(b) => {
                let s = seq![0u8] + b + tail;
                assert(s[0] == 0);
                assert(s.skip(1) =~= b + tail);
                assert((b + tail).take(4) =~= b);
            },
            IpAddrModel::V6(b) => {
                let s = seq![1u8] + b + tail;
                assert(s[0] == 1);
                assert(s.skip(1) =~= b + tail);
                assert((b + tail).take(16) =~= b);
            },
        }
    }
}

/// MacAddr: a one-byte discriminant (`0` for the 6-byte form, `1` for the
/// 8-byte form), then the raw bytes.
#[derive(Debug, Clone, Copy, PartialEq, Eq)]
pub enum MacAddr {
    /// A 48-bit MAC address.
    Eui48([u8; 6]),
    /// A 64-bit MAC address.
    Eui64([u8; 8]),
}

/// What a [`MacAddr`] denotes: which form, and its bytes.
pub enum MacAddrModel {
    /// A 48-bit MAC address.
    Eui48(Seq<u8>),
    /// A 64-bit MAC address.
    Eui64(Seq<u8>),
}

impl DeepView for MacAddr {
    type V = MacAddrModel;

    open spec fn deep_view(&self) -> MacAddrModel {
        match self {
            MacAddr::Eui48(b) => MacAddrModel::Eui48(b@),
            MacAddr::Eui64(b) => MacAddrModel::Eui64(b@),
        }
    }
}

/// The bytes that follow discriminant `t`.
pub open spec fn spec_decode_mac_addr_payload(t: u8, s: Seq<u8>) -> Decoded<MacAddrModel> {
    if t == 0 {
        mapped(spec_read_bytes(s, 6), |b: Seq<u8>| MacAddrModel::Eui48(b))
    } else if t == 1 {
        mapped(spec_read_bytes(s, 8), |b: Seq<u8>| MacAddrModel::Eui64(b))
    } else {
        (Err(DecodeError::InvalidVariant { kind: "MacAddr", seen: t as u32 }), 0)
    }
}

impl Encode for MacAddr {
    open spec fn spec_encode(m: MacAddrModel) -> Emitted {
        match m {
            MacAddrModel::Eui48(b) => emit(seq![0u8] + b),
            MacAddrModel::Eui64(b) => emit(seq![1u8] + b),
        }
    }

    fn encode(&self, writer: &mut Writer) -> (res: Result<(), EncodeError>) {
        match self {
            MacAddr::Eui48(b) => {
                writer.write_u8(0)?;
                writer.write_array(b)
            },
            MacAddr::Eui64(b) => {
                writer.write_u8(1)?;
                writer.write_array(b)
            },
        }
    }
}

impl Decode for MacAddr {
    open spec fn spec_decode(s: Seq<u8>) -> Decoded<MacAddrModel> {
        and_then(spec_read_u8(s), s, |t: u8, rest: Seq<u8>| spec_decode_mac_addr_payload(t, rest))
    }

    proof fn lemma_decode_within(s: Seq<u8>) {
    }

    proof fn lemma_decode_local(s: Seq<u8>, t: Seq<u8>) {
        let n = Self::spec_decode(s).1;
        let u = s.take(n as int) + t;
        assert(u[0] == s[0]);
        assert(u.skip(1) =~= s.skip(1).take(n - 1) + t);
        assert((s.skip(1).take(n - 1) + t).take(n - 1) =~= s.skip(1).take(n - 1));
    }

    open spec fn spec_need(s: Seq<u8>) -> nat {
        0
    }

    fn decode(reader: &mut Reader<'_>, budget: &mut Budget) -> (res: Result<MacAddr, DecodeError>) {
        let ghost r0 = *reader;
        let t = reader.read_u8()?;
        proof {
            r0.lemma_rest_after(*reader, 1);
        }
        if t == 0 {
            let b = reader.read_array::<6>()?;
            Ok(MacAddr::Eui48(b))
        } else if t == 1 {
            let b = reader.read_array::<8>()?;
            Ok(MacAddr::Eui64(b))
        } else {
            Err(DecodeError::InvalidVariant { kind: "MacAddr", seen: t as u32 })
        }
    }
}

/// The stable wire forms of MAC addresses: a 48-bit address is byte 0
/// then its six bytes, a 64-bit address byte 1 then its eight; bytes
/// opening with 0 read back as 48-bit and with 1 as 64-bit.
pub proof fn lemma_mac_addr_discriminants(m: MacAddrModel, s: Seq<u8>)
    ensures
        m matches MacAddrModel::Eui48(b) ==> <MacAddr as Encode>::spec_encode(m) == emit(seq![0u8] + b),
        m matches MacAddrModel::Eui64(b) ==> <MacAddr as Encode>::spec_encode(m) == emit(seq![1u8] + b),
        <MacAddr as Decode>::spec_decode(seq![0u8] + s).0 == match spec_read_bytes(s, 6).0 {
            Ok(b) => Ok::<MacAddrModel, DecodeError>(MacAddrModel::Eui48(b)),
            Err(e) => Err(e),
        },
        <MacAddr as Decode>::spec_decode(seq![1u8] + s).0 == match spec_read_bytes(s, 8).0 {
            Ok(b) => Ok::<MacAddrModel, DecodeError>(MacAddrModel::Eui64(b)),
            Err(e) => Err(e),
        },
{
    assert((seq![0u8] + s).skip(1) =~= s);
    assert((seq![1u8] + s).skip(1) =~= s);
}

impl Codec for MacAddr {
    open spec fn spec_fits(m: MacAddrModel) -> bool {
        match m {
            MacAddrModel::Eui48(b) => b.len() == 6,
            MacAddrModel::Eui64(b) => b.len() == 8,
        }
    }

    proof fn lemma_round_trip(m: MacAddrModel, tail: Seq<u8>) {
        match m {
            MacAddrModel::Eui48(b) => {
                let s = seq![0u8] + b + tail;
                assert(s[0] == 0);
                assert(s.skip(1) =~= b + tail);
                assert((b + tail).take(6) =~= b);
            },
            MacAddrModel::Eui64(b) => {
                let s = seq![1u8] + b + tail;
                assert(s[0] == 1);
                assert(s.skip(1) =~= b + tail);
                assert((b + tail).take(8) =~= b);
            },
        }
    }
}

} // verus!
