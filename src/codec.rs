use vstd::prelude::*;
use vstd::string::StringSliceAdditionalSpecFns;

verus! {

/// The VarInt form of a 32-bit pattern: seven bits to a byte, the lowest
/// group first, the top bit set on every byte but the last.
pub open spec fn var_int_bytes(v: u32) -> Seq<u8>
    decreases v,
{
    if v < 128 {
        seq![v as u8]
    } else {
        seq![(v % 128 + 128) as u8] + var_int_bytes((v / 128) as u32)
    }
}

/// The wire form of a string: the VarInt of its length in bytes, cut to an
/// `i32`, then its UTF-8 bytes.
pub open spec fn str_bytes(s: Seq<u8>) -> Seq<u8> {
    var_int_bytes((s.len() as i32) as u32) + s
}

/// Appends the VarInt form of `value`; a negative value goes by its two's
/// complement bits, and so takes five bytes.
pub fn encode_var_int(value: i32, out: &mut Vec<u8>)
    ensures
        final(out)@ == old(out)@ + var_int_bytes(value as u32),
{
    let mut v: u32 = #[verifier::truncate] (value as u32);
    loop
        invariant
            out@ + var_int_bytes(v) == old(out)@ + var_int_bytes(value as u32),
        decreases v,
    {
        if v < 128 {
            out.push(v as u8);
            assert(out@ =~= old(out)@ + var_int_bytes(value as u32));
            return;
        }
        let ghost v0 = v;
        let ghost before = out@;
        assert(var_int_bytes(v0) == seq![(v0 % 128 + 128) as u8] + var_int_bytes((v0 / 128) as u32));
        out.push((v % 128 + 128) as u8);
        v = v / 128;
        assert(out@ + var_int_bytes(v) =~= before + var_int_bytes(v0));
    }
}

/// Appends a boolean as one byte: 1 for true, 0 for false.
pub fn encode_bool(value: bool, out: &mut Vec<u8>)
    ensures
        final(out)@ == old(out)@.push(if value { 1u8 } else { 0u8 }),
{
    out.push(if value { 1u8 } else { 0u8 });
}

/// Appends the wire form of `s`.
pub fn encode_str(s: &str, out: &mut Vec<u8>)
    ensures
        final(out)@ == old(out)@ + str_bytes(s.spec_bytes()),
{
    let len: usize = s.len();
    encode_var_int(#[verifier::truncate] (len as i32), out);
    let bytes = s.as_bytes();
    let ghost mid = out@;
    let mut i: usize = 0;
    while i < bytes.len()
        invariant
            bytes@ == s.spec_bytes(),
            i <= bytes@.len(),
            out@ == mid + bytes@.subrange(0, i as int),
        decreases bytes@.len() - i,
    {
        out.push(bytes[i]);
        i = i + 1;
        assert(out@ =~= mid + bytes@.subrange(0, i as int));
    }
    assert(bytes@.subrange(0, i as int) =~= bytes@);
    assert(out@ =~= old(out)@ + str_bytes(s.spec_bytes()));
}

/// Appends the wire form of the string `s` holds.
pub fn encode_string(s: &String, out: &mut Vec<u8>)
    ensures
        final(out)@ == old(out)@ + str_bytes(vstd::utf8::encode_utf8(s@)),
{
    encode_str(s.as_str(), out);
}

} // verus!
