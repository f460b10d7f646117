//! What the command line means, once its words are read.
use vstd::prelude::*;
use vstd::string::StringSliceAdditionalSpecFns;

verus! {

/// How the program ends, as the shell sees it.
#[derive(Clone, Copy, Debug, PartialEq, Eq, Structural)]
pub enum Exit {
    /// The user left.
    Normal,
    /// The program could not start, or reading or writing failed.
    Failure,
    /// The arguments make no sense.
    BadArguments,
}

pub open spec fn spec_exit_code(exit: Exit) -> u8 {
    match exit {
        Exit::Normal => 0,
        Exit::Failure => 1,
        Exit::BadArguments => 2,
    }
}

impl Exit {
    /// The exit code of the process.
    pub fn code(&self) -> (code: u8)
        ensures
            code == spec_exit_code(*self),
    {
        match self {
            Exit::Normal => 0,
            Exit::Failure => 1,
            Exit::BadArguments => 2,
        }
    }
}

/// Whether `byte` is a decimal digit.
pub open spec fn is_digit(byte: u8) -> bool {
    0x30 <= byte <= 0x39
}

/// The number that a run of decimal digits writes.
pub open spec fn number(digits: Seq<u8>) -> nat
    decreases digits.len(),
{
    if digits.len() == 0 {
        0
    } else {
        number(digits.drop_last()) * 10 + (digits.last() - 0x30) as nat
    }
}

/// Whether `field` writes a port: one digit or more and nothing else, and a
/// number that fits in sixteen bits.
pub open spec fn is_port(field: Seq<u8>) -> bool {
    &&& field.len() > 0
    &&& forall|i: int| 0 <= i < field.len() ==> is_digit(#[trigger] field[i])
    &&& number(field) <= u16::MAX
}

/// The fields of `text`, which commas separate. A text without comma is one
/// field; the empty text is one empty field.
pub open spec fn fields(text: Seq<u8>) -> Seq<Seq<u8>>
    decreases text.len(),
{
    if text.len() == 0 {
        seq![Seq::<u8>::empty()]
    } else {
        let before = fields(text.drop_last());
        if text.last() == 0x2c {
            before.push(Seq::<u8>::empty())
        } else {
            before.drop_last().push(before.last().push(text.last()))
        }
    }
}

/// The ports that `text` lists, if every field of it writes a port.
pub open spec fn spec_parse_ports(text: Seq<u8>) -> Option<Seq<u16>> {
    let listed = fields(text);
    if forall|i: int| 0 <= i < listed.len() ==> is_port(#[trigger] listed[i]) {
        Some(Seq::new(listed.len(), |i: int| number(listed[i]) as u16))
    } else {
        None
    }
}

/// A text has at least one field.
pub proof fn lemma_fields_nonempty(text: Seq<u8>)
    ensures
        fields(text).len() > 0,
    decreases text.len(),
{
    if text.len() > 0 {
        lemma_fields_nonempty(text.drop_last());
    }
}

/// A longer run of digits writes no smaller number.
proof fn lemma_number_grows(digits: Seq<u8>, more: Seq<u8>)
    requires
        forall|i: int| 0 <= i < more.len() ==> is_digit(#[trigger] more[i]),
    ensures
        number(digits) <= number(digits + more),
    decreases more.len(),
{
    if more.len() == 0 {
        assert(digits + more =~= digits);
    } else {
        lemma_number_grows(digits, more.drop_last());
        assert((digits + more).drop_last() =~= digits + more.drop_last());
        assert((digits + more).last() == more.last());
        assert(is_digit(more[more.len() - 1]));
    }
}

/// Reads a list of ports, written in decimal and separated by commas, such
/// as `8080,8081`.
pub fn parse_ports(text: &str) -> (ports: Option<Vec<u16>>)
    ensures
        match (ports, spec_parse_ports(text.spec_bytes())) {
            (Some(p), Some(q)) => p@ == q,
            (None, None) => true,
            _ => false,
        },
{
    let bytes = text.as_bytes();
    let mut ports: Vec<u16> = Vec::new();
    let mut value: u32 = 0;
    let mut digits: usize = 0;
    let mut i: usize = 0;
    proof {
        lemma_fields_nonempty(bytes@.take(0));
        assert(bytes@.take(0) =~= Seq::<u8>::empty());
    }
    while i < bytes.len()
        invariant
            i <= bytes.len(),
            bytes@ == text.spec_bytes(),
            fields(bytes@.take(i as int)).len() == ports.len() + 1,
            forall|k: int| 0 <= k < ports.len() ==> is_port(#[trigger] fields(bytes@.take(i as int))[k]),
            forall|k: int|
                0 <= k < ports.len() ==> ports[k] == number(
                    #[trigger] fields(bytes@.take(i as int))[k],
                ),
            fields(bytes@.take(i as int)).last().len() == digits,
            forall|k: int|
                0 <= k < digits ==> is_digit(#[trigger] fields(bytes@.take(i as int)).last()[k]),
            value == number(fields(bytes@.take(i as int)).last()),
            value <= u16::MAX,
            digits <= i,
        decreases bytes.len() - i,
    {
        let byte = bytes[i];
        let ghost before = fields(bytes@.take(i as int));
        let ghost after = fields(bytes@.take(i + 1));
        proof {
            assert(bytes@.take(i + 1).drop_last() =~= bytes@.take(i as int));
            assert(bytes@.take(i + 1).last() == byte);
        }
        if byte == 0x2c {
            proof {
                assert(after =~= before.push(Seq::<u8>::empty()));
            }
            if digits == 0 {
                proof {
                    let open = ports.len() as int;
                    lemma_rest_keeps_fields(bytes@, i as int + 1, open + 1);
                    assert(fields(bytes@)[open] == after[open]);
                    assert(!is_port(fields(bytes@)[open]));
                }
                return None;
            }
            ports.push(value as u16);
            value = 0;
            digits = 0;
            proof {
                assert forall|k: int| 0 <= k < ports.len() implies is_port(#[trigger] after[k])
                    && ports[k] == number(after[k]) by {
                    assert(after[k] == before[k]);
                }
            }
        } else if byte >= 0x30 && byte <= 0x39 {
            let next = value * 10 + (byte - 0x30) as u32;
            proof {
                assert(after =~= before.drop_last().push(before.last().push(byte)));
                assert(after.last().drop_last() =~= before.last());
                assert forall|k: int| 0 <= k < ports.len() implies is_port(#[trigger] after[k])
                    && ports[k] == number(after[k]) by {
                    assert(after[k] == before[k]);
                }
            }
            proof {
                assert(after.last().last() == byte);
                assert(number(after.last()) == next);
            }
            if next > 0xffff {
                proof {
                    lemma_rest_grows_field(bytes@, i as int + 1, ports.len() as int);
                    assert(!is_port(fields(bytes@)[ports.len() as int]));
                }
                return None;
            }
            value = next;
            digits = digits + 1;
        } else {
            proof {
                let open = ports.len() as int;
                assert(after =~= before.drop_last().push(before.last().push(byte)));
                assert(after[open][digits as int] == byte);
                lemma_rest_keeps_fields(bytes@, i as int + 1, open);
                assert(fields(bytes@)[open][digits as int] == after[open][digits as int]);
                assert(!is_digit(fields(bytes@)[open][digits as int]));
                assert(!is_port(fields(bytes@)[open]));
            }
            return None;
        }
        i += 1;
    }
    proof {
        assert(bytes@.take(bytes.len() as int) =~= bytes@);
    }
    if digits == 0 {
        assert(!is_port(fields(bytes@)[ports.len() as int]));
        return None;
    }
    let ghost listed = fields(bytes@);
    ports.push(value as u16);
    proof {
        assert forall|k: int| 0 <= k < listed.len() implies is_port(#[trigger] listed[k]) by {}
        assert(ports@ =~= Seq::new(listed.len(), |k: int| number(listed[k]) as u16));
    }
    Some(ports)
}

/// Reading on never changes a field that a comma has closed, nor shortens
/// the field that is open.
proof fn lemma_rest_keeps_fields(text: Seq<u8>, read: int, open: int)
    requires
        0 <= read <= text.len(),
        fields(text.take(read)).len() == open + 1,
    ensures
        fields(text).len() > open,
        forall|k: int| 0 <= k < open ==> fields(text)[k] == #[trigger] fields(text.take(read))[k],
        fields(text)[open].len() >= fields(text.take(read))[open].len(),
        forall|k: int|
            0 <= k < fields(text.take(read))[open].len() ==> fields(text)[open][k] == fields(
                text.take(read),
            )[open][k],
    decreases text.len() - read,
{
    if read == text.len() {
        assert(text.take(read) =~= text);
    } else {
        let shorter = text.drop_last();
        assert(shorter.take(read) =~= text.take(read));
        lemma_rest_keeps_fields(shorter, read, open);
    }
}

/// A field whose digits already write too large a number stays too large,
/// however the text goes on.
proof fn lemma_rest_grows_field(text: Seq<u8>, read: int, open: int)
    requires
        0 <= read <= text.len(),
        fields(text.take(read)).len() == open + 1,
        number(fields(text.take(read))[open]) > u16::MAX,
    ensures
        fields(text).len() > open,
        !is_port(fields(text)[open]),
    decreases text.len() - read,
{
    lemma_closed_field(text, read, open);
}

/// The field that is open after `read` bytes ends at the next comma, or at
/// the end of the text: what it holds then is what it holds now and the
/// bytes up to there.
proof fn lemma_closed_field(text: Seq<u8>, read: int, open: int)
    requires
        0 <= read <= text.len(),
        fields(text.take(read)).len() == open + 1,
    ensures
        fields(text).len() > open,
        exists|more: Seq<u8>| fields(text)[open] == fields(text.take(read))[open] + more,
        is_port(fields(text)[open]) ==> number(fields(text.take(read))[open]) <= number(
            fields(text)[open],
        ),
    decreases text.len() - read,
{
    if read == text.len() {
        assert(text.take(read) =~= text);
        assert(fields(text)[open] =~= fields(text)[open] + Seq::<u8>::empty());
    } else {
        let shorter = text.drop_last();
        assert(shorter.take(read) =~= text.take(read));
        lemma_closed_field(shorter, read, open);
        let before = fields(shorter);
        let start = fields(text.take(read))[open];
        let more = choose|more: Seq<u8>| before[open] == start + more;
        if text.last() != 0x2c && before.len() == open + 1 {
            assert(fields(text)[open] =~= start + more.push(text.last()));
        } else {
            assert(fields(text)[open] == before[open]);
        }
    }
    if is_port(fields(text)[open]) {
        let start = fields(text.take(read))[open];
        let more = choose|more: Seq<u8>| fields(text)[open] == start + more;
        assert forall|i: int| 0 <= i < more.len() implies is_digit(#[trigger] more[i]) by {
            assert((start + more)[start.len() + i] == more[i]);
        }
        lemma_number_grows(start, more);
    }
}

/// Where a remote capture source is reached.
#[derive(Clone, Debug, PartialEq, Eq)]
pub struct Remote {
    pub address: String,
    pub ports: Vec<u16>,
}

/// The ports of a remote source whose ports the user did not name.
pub open spec fn spec_default_ports() -> Seq<u16> {
    seq![8080u16, 8081u16]
}

/// The address of a remote source whose address the user did not name.
pub open spec fn spec_default_address() -> Seq<char> {
    "localhost"@
}

/// The remote source that the options ask for, if any: `Ok(None)` means the
/// devices of this machine.
pub open spec fn spec_remote(address: Option<Seq<char>>, ports: Option<Seq<u8>>) -> Result<
    Option<(Seq<char>, Seq<u16>)>,
    Exit,
> {
    match (address, ports) {
        (None, None) => Ok(None),
        (Some(a), None) => Ok(Some((a, spec_default_ports()))),
        (a, Some(text)) => match spec_parse_ports(text) {
            Some(listed) => Ok(
                Some(
                    (
                        match a {
                            Some(a) => a,
                            None => spec_default_address(),
                        },
                        listed,
                    ),
                ),
            ),
            None => Err(Exit::BadArguments),
        },
    }
}

/// Decides where captured data comes from. Without address and ports it is
/// this machine. An address alone means its ports 8080 and 8081; ports alone
/// mean `localhost`. Ports that cannot be read are an error of the
/// arguments.
pub fn remote(address: Option<String>, ports: Option<&str>) -> (chosen: Result<
    Option<Remote>,
    Exit,
>)
    ensures
        match (
            chosen,
            spec_remote(
                crate::events::name_view(address),
                match ports {
                    Some(text) => Some(text.spec_bytes()),
                    None => None,
                },
            ),
        ) {
            (Ok(None), Ok(None)) => true,
            (Ok(Some(r)), Ok(Some(s))) => r.address@ == s.0 && r.ports@ == s.1,
            (Err(e), Err(f)) => e == f,
            _ => false,
        },
{
    match ports {
        None => match address {
            None => Ok(None),
            Some(address) => {
                let mut ports: Vec<u16> = Vec::new();
                ports.push(8080);
                ports.push(8081);
                assert(ports@ =~= spec_default_ports());
                Ok(Some(Remote { address, ports }))
            },
        },
        Some(text) => match parse_ports(text) {
            None => Err(Exit::BadArguments),
            Some(ports) => {
                let address = match address {
                    Some(address) => address,
                    None => "localhost".to_owned(),
                };
                Ok(Some(Remote { address, ports }))
            },
        },
    }
}

} // verus!
