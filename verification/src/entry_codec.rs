use vstd::prelude::*;
use vstd::string::StringSliceAdditionalSpecFns;

verus! {

/// The byte slice is not valid text, so the call cannot be encoded.
#[derive(Debug)]
pub struct EncodeError;

#[verifier::external_type_specification]
#[verifier::external_body]
pub struct ExUtf8Error(core::str::Utf8Error);

/// Relies on core::str::from_utf8: it succeeds exactly on valid
/// UTF-8, and the returned text is the bytes read as characters.
pub assume_specification[ core::str::from_utf8 ](v: &[u8]) -> (r: Result<
    &str,
    core::str::Utf8Error,
>)
    ensures
        r is Ok <==> vstd::utf8::valid_utf8(v@),
        r matches Result::Ok(s) ==> s.spec_bytes() == v@,
;

/// The argument bytes, one value after another.
pub open spec fn spec_args_bytes(args: Seq<Seq<u8>>) -> Seq<u8>
    decreases args.len(),
{
    if args.len() == 0 {
        Seq::empty()
    } else {
        spec_args_bytes(args.drop_last()) + args.last()
    }
}

/// The encoded call: the entry function's name, length-prefixed, then
/// the argument count and the serialized arguments, both left out
/// when there is no argument.  Lengths are little-endian machine
/// words.
pub open spec fn spec_instruction_data(name: Seq<char>, args: Seq<Seq<u8>>) -> Seq<u8> {
    vstd::bytes::spec_u64_to_le_bytes(
        vstd::utf8::encode_utf8(name).len() as usize as u64,
    ) + vstd::utf8::encode_utf8(name) + if args.len() == 0 {
        Seq::<u8>::empty()
    } else {
        vstd::bytes::spec_u64_to_le_bytes(args.len() as u64) + spec_args_bytes(args)
    }
}

fn push_slice(out: &mut Vec<u8>, s: &[u8])
    ensures
        final(out)@ == old(out)@ + s@,
{
    let n = s.len();
    let mut i: usize = 0;
    while i < n
        invariant
            n == s@.len(),
            i <= n,
            out@ == old(out)@ + s@.take(i as int),
        decreases n - i,
    {
        out.push(s[i]);
        assert(out@ =~= old(out)@ + s@.take(i + 1));
        i += 1;
    }
    assert(out@ =~= old(out)@ + s@);
}

/// Encode one call of an entry function for the wire: the function's
/// name and its already-serialized argument values.  An argument
/// whose bytes are not valid text is refused, as the transport cannot
/// carry it.
pub fn encode_instruction_data(entry_fn_name: &str, args: &Vec<Vec<u8>>) -> (r: Result<
    Vec<u8>,
    EncodeError,
>)
    ensures
        (r is Ok <==> forall|i: int|
            0 <= i < args.deep_view().len() ==> vstd::utf8::valid_utf8(
                #[trigger] args.deep_view()[i],
            )),
        r matches Result::Ok(data) ==> data@ == spec_instruction_data(
            entry_fn_name@,
            args.deep_view(),
        ),
{
    let mut insn_data: Vec<u8> = Vec::new();
    let name_bytes = entry_fn_name.as_bytes();
    let entry_fn_len: u64 = name_bytes.len() as u64;
    let mut len_bytes = vstd::bytes::u64_to_le_bytes(entry_fn_len);
    insn_data.append(&mut len_bytes);
    push_slice(&mut insn_data, name_bytes);
    let ghost header = insn_data@;
    if args.len() > 0 {
        let arglen: u64 = args.len() as u64;
        let mut count_bytes = vstd::bytes::u64_to_le_bytes(arglen);
        insn_data.append(&mut count_bytes);
        let n = args.len();
        let mut i: usize = 0;
        while i < n
            invariant
                n == args@.len(),
                args.deep_view().len() == n,
                i <= n,
                insn_data@ == header + vstd::bytes::spec_u64_to_le_bytes(n as u64)
                    + spec_args_bytes(args.deep_view().take(i as int)),
                forall|j: int|
                    0 <= j < i ==> vstd::utf8::valid_utf8(#[trigger] args.deep_view()[j]),
            decreases n - i,
        {
            let arg = &args[i];
            proof {
                assert(args.deep_view()[i as int] =~= arg@);
            }
            match core::str::from_utf8(arg.as_slice()) {
                Result::Ok(text) => {
                    push_slice(&mut insn_data, text.as_bytes());
                },
                Result::Err(_) => {
                    return Result::Err(EncodeError);
                },
            }
            proof {
                assert(args.deep_view().take(i + 1).drop_last() =~= args.deep_view().take(
                    i as int,
                ));
                assert(args.deep_view().take(i + 1).last() == args.deep_view()[i as int]);
                assert(insn_data@ =~= header + vstd::bytes::spec_u64_to_le_bytes(n as u64)
                    + spec_args_bytes(args.deep_view().take(i + 1)));
            }
            i += 1;
        }
        proof {
            assert(args.deep_view().take(n as int) =~= args.deep_view());
            assert(insn_data@ =~= spec_instruction_data(entry_fn_name@, args.deep_view()));
        }
    } else {
        proof {
            assert(insn_data@ =~= spec_instruction_data(entry_fn_name@, args.deep_view()));
        }
    }
    Result::Ok(insn_data)
}

} // verus!
