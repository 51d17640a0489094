//! MAC addresses: their text form, and the decision to change one.

use crate::error::{ErrorView, Fault, NisporError};
use crate::ifaces::iface::{Iface, IfaceView};
use crate::transport::{Request, RequestView};
use vstd::prelude::*;
use vstd::string::*;

verus! {

/// The lower-case hexadecimal digit of a number below 16.
pub open spec fn hex_digit(n: int) -> char {
    "0123456789abcdef"@[n]
}

/// The two hexadecimal digits of a byte.
pub open spec fn hex_pair(b: u8) -> Seq<char> {
    seq![hex_digit(b as int / 16), hex_digit(b as int % 16)]
}

/// The text of a MAC address: the bytes as pairs of hexadecimal digits
/// with a colon between each two.
pub open spec fn mac_text(bytes: Seq<u8>) -> Seq<char>
    decreases bytes.len(),
{
    if bytes.len() == 0 {
        Seq::empty()
    } else if bytes.len() == 1 {
        hex_pair(bytes[0])
    } else {
        mac_text(bytes.drop_last()) + seq![':'] + hex_pair(bytes.last())
    }
}

/// The value of a hexadecimal digit of either case.
pub open spec fn hex_value(c: char) -> Option<int> {
    if '0' <= c <= '9' {
        Some(c as int - '0' as int)
    } else if 'a' <= c <= 'f' {
        Some(c as int - 'a' as int + 10)
    } else if 'A' <= c <= 'F' {
        Some(c as int - 'A' as int + 10)
    } else {
        None
    }
}

/// The number that a non-empty run of hexadecimal digits denotes.
pub open spec fn hex_number(s: Seq<char>) -> Option<int>
    decreases s.len(),
{
    if s.len() == 0 {
        None
    } else {
        match hex_value(s.last()) {
            None => None,
            Some(d) => if s.len() == 1 {
                Some(d)
            } else {
                match hex_number(s.drop_last()) {
                    None => None,
                    Some(v) => Some(16 * v + d),
                }
            },
        }
    }
}

/// The byte that a piece of text denotes: hexadecimal digits, any number of
/// them, after an optional plus sign, with a value of at most 255.
pub open spec fn hex_byte(s: Seq<char>) -> Option<u8> {
    let digits = if s.len() > 1 && s[0] == '+' {
        s.drop_first()
    } else {
        s
    };
    match hex_number(digits) {
        Some(v) => if v <= 255 {
            Some(v as u8)
        } else {
            None
        },
        None => None,
    }
}

/// The pieces of a text between its separators. A text without separator
/// is one piece, the empty text too.
pub open spec fn split(s: Seq<char>, sep: char) -> Seq<Seq<char>>
    decreases s.len(),
{
    if s.len() == 0 {
        seq![Seq::empty()]
    } else {
        let init = split(s.drop_last(), sep);
        if s.last() == sep {
            init.push(Seq::empty())
        } else {
            init.update(init.len() - 1, init.last().push(s.last()))
        }
    }
}

/// The bytes that the text of a MAC address denotes, if each piece between
/// the colons denotes a byte.
pub open spec fn mac_bytes(text: Seq<char>) -> Option<Seq<u8>> {
    let pieces = split(text, ':');
    if forall|i: int| 0 <= i < pieces.len() ==> (#[trigger] hex_byte(pieces[i])) is Some {
        Some(Seq::new(pieces.len(), |i: int| hex_byte(pieces[i])->0))
    } else {
        None
    }
}

fn hex_str(n: u8) -> (r: &'static str)
    requires
        n < 16,
    ensures
        r@ == seq![hex_digit(n as int)],
{
    let digits = "0123456789abcdef";
    proof {
        reveal_strlit("0123456789abcdef");
    }
    let r = digits.substring_ascii(n as usize, n as usize + 1);
    assert(r@ =~= seq![hex_digit(n as int)]);
    r
}

/// The text of the first `mac_len` bytes of `data`.
pub fn parse_as_mac(mac_len: usize, data: &[u8]) -> (r: Result<String, NisporError>)
    ensures
        mac_len <= data@.len() ==> r is Ok && r->Ok_0@ == mac_text(data@.take(mac_len as int)),
        mac_len > data@.len() ==> r is Err && r->Err_0@ == NisporError::spec_bug(
            Fault::MacTooShort,
            Seq::empty(),
            Seq::empty(),
        ),
{
    let mut rt = String::new();
    let mut i: usize = 0;
    while i < mac_len
        invariant
            i <= mac_len,
            i <= data@.len(),
            rt@ == mac_text(data@.take(i as int)),
        decreases mac_len - i,
    {
        if i >= data.len() {
            return Err(NisporError::bug(Fault::MacTooShort, String::new(), String::new()));
        }
        let b = data[i];
        if i != 0 {
            rt.append(":");
        }
        rt.append(hex_str(b / 16));
        rt.append(hex_str(b % 16));
        proof {
            reveal_strlit(":");
            let now = data@.take(i as int + 1);
            assert(now.drop_last() =~= data@.take(i as int));
            assert(now.last() == b);
            assert(":"@ =~= seq![':']);
            assert(rt@ =~= mac_text(now));
        }
        i = i + 1;
    }
    Ok(rt)
}

/// The characters of a text.
pub fn chars_of(s: &str) -> (v: Vec<char>)
    ensures
        v@ == s@,
{
    broadcast use vstd::string::group_string_axioms;

    let mut v: Vec<char> = Vec::new();
    for c in it: s.chars()
        invariant
            v@ == it.history(),
            it.seq() == s@,
    {
        v.push(c);
    }
    assert(v@ =~= s@);
    v
}

/// The texts that a vector of character vectors holds.
pub open spec fn texts(pieces: Seq<Vec<char>>) -> Seq<Seq<char>> {
    pieces.map_values(|p: Vec<char>| p@)
}

fn split_chars(s: &Vec<char>, sep: char) -> (pieces: Vec<Vec<char>>)
    ensures
        texts(pieces@) == split(s@, sep),
{
    let mut done: Vec<Vec<char>> = Vec::new();
    let mut cur: Vec<char> = Vec::new();
    let mut i: usize = 0;
    while i < s.len()
        invariant
            i <= s.len(),
            texts(done@).push(cur@) == split(s@.take(i as int), sep),
        decreases s.len() - i,
    {
        let c = s[i];
        proof {
            let now = s@.take(i as int + 1);
            assert(now.drop_last() =~= s@.take(i as int));
            assert(now.last() == c);
        }
        let ghost before = texts(done@).push(cur@);
        if c == sep {
            done.push(cur);
            cur = Vec::new();
            assert(texts(done@) =~= before);
        } else {
            cur.push(c);
            assert(texts(done@).push(cur@) =~= before.update(
                before.len() - 1,
                before.last().push(c),
            ));
        }
        i = i + 1;
    }
    assert(s@.take(s.len() as int) =~= s@);
    let ghost before = texts(done@).push(cur@);
    done.push(cur);
    assert(texts(done@) =~= before);
    done
}

fn hex_value_of(c: char) -> (r: Option<u8>)
    ensures
        r is Some <==> hex_value(c) is Some,
        r is Some ==> r->0 == hex_value(c)->0,
{
    if '0' <= c && c <= '9' {
        Some(c as u8 - '0' as u8)
    } else if 'a' <= c && c <= 'f' {
        Some(c as u8 - 'a' as u8 + 10)
    } else if 'A' <= c && c <= 'F' {
        Some(c as u8 - 'A' as u8 + 10)
    } else {
        None
    }
}

/// What `hex_number` gives for a run, cut off at 256.
spec fn capped(s: Seq<char>) -> int {
    let v = hex_number(s)->0;
    if v < 256 {
        v
    } else {
        256
    }
}

fn hex_byte_of(piece: &Vec<char>) -> (r: Option<u8>)
    ensures
        r == hex_byte(piece@),
{
    let n = piece.len();
    let start: usize = if n > 1 && piece[0] == '+' {
        1
    } else {
        0
    };
    let ghost digits = piece@.subrange(start as int, n as int);
    assert(start == 1 ==> digits =~= piece@.drop_first());
    assert(start == 0 ==> digits =~= piece@);
    if start == n {
        return None;
    }
    let mut acc: u32 = 0;
    let mut i: usize = start;
    while i < n
        invariant
            start <= i <= n,
            n == piece@.len(),
            start < n,
            digits == piece@.subrange(start as int, n as int),
            digits == if piece@.len() > 1 && piece@[0] == '+' {
                piece@.drop_first()
            } else {
                piece@
            },
            i > start ==> hex_number(digits.take(i - start)) is Some,
            i > start ==> acc == capped(digits.take(i - start)),
            i == start ==> acc == 0,
            acc <= 256,
        decreases n - i,
    {
        let ghost now = digits.take(i - start + 1);
        proof {
            assert(now.drop_last() =~= digits.take(i - start));
            assert(now.last() == piece@[i as int]);
        }
        match hex_value_of(piece[i]) {
            None => {
                proof {
                    assert(hex_number(now) is None);
                    lemma_hex_number_prefix(digits, i - start + 1);
                }
                return None;
            },
            Some(d) => {
                let next = acc * 16 + d as u32;
                acc = if next > 256 {
                    256
                } else {
                    next
                };
            },
        }
        i = i + 1;
    }
    assert(digits.take(n - start) =~= digits);
    if acc <= 255 {
        Some(acc as u8)
    } else {
        None
    }
}

/// A run denotes a number only if each of its beginnings does.
proof fn lemma_hex_number_prefix(s: Seq<char>, n: int)
    requires
        1 <= n <= s.len(),
        hex_number(s.take(n)) is None,
    ensures
        hex_number(s) is None,
    decreases s.len(),
{
    if n < s.len() {
        assert(s.drop_last().take(n) =~= s.take(n));
        lemma_hex_number_prefix(s.drop_last(), n);
    } else {
        assert(s.take(n) =~= s);
    }
}

/// The bytes of a MAC address given as text: the pieces between the colons,
/// each read as a hexadecimal number.
pub fn mac_address_str_to_u8(mac_addr: &str) -> (r: Result<Vec<u8>, NisporError>)
    ensures
        match mac_bytes(mac_addr@) {
            Some(bytes) => r is Ok && r->Ok_0@ == bytes,
            None => r is Err && r->Err_0@ == NisporError::spec_invalid_argument(
                Fault::MalformedMac,
                Seq::empty(),
                mac_addr@,
            ),
        },
{
    let chars = chars_of(mac_addr);
    let pieces = split_chars(&chars, ':');
    let ghost parts = split(mac_addr@, ':');
    let mut data: Vec<u8> = Vec::new();
    let mut i: usize = 0;
    while i < pieces.len()
        invariant
            i <= pieces.len(),
            texts(pieces@) == parts,
            parts == split(mac_addr@, ':'),
            data@.len() == i,
            forall|j: int| 0 <= j < i ==> (#[trigger] hex_byte(parts[j])) is Some,
            forall|j: int| 0 <= j < i ==> data@[j] == hex_byte(parts[j])->0,
        decreases pieces.len() - i,
    {
        assert(parts[i as int] == pieces@[i as int]@);
        match hex_byte_of(&pieces[i]) {
            Some(b) => {
                data.push(b);
            },
            None => {
                assert(hex_byte(parts[i as int]) is None);
                return Err(
                    NisporError::invalid_argument(
                        Fault::MalformedMac,
                        String::new(),
                        String::from_str(mac_addr),
                    ),
                );
            },
        }
        i = i + 1;
    }
    assert(data@ =~= mac_bytes(mac_addr@)->0);
    Ok(data)
}

fn bytes_eq(a: &Vec<u8>, b: &Vec<u8>) -> (r: bool)
    ensures
        r == (a@ == b@),
{
    if a.len() != b.len() {
        return false;
    }
    let mut i: usize = 0;
    while i < a.len()
        invariant
            i <= a.len(),
            a@.len() == b@.len(),
            forall|j: int| 0 <= j < i ==> a@[j] == b@[j],
        decreases a.len() - i,
    {
        if a[i] != b[i] {
            return false;
        }
        i = i + 1;
    }
    assert(a@ =~= b@);
    true
}

/// The request, if any, that gives a live interface the desired MAC
/// address. None is needed where the text is that of the live address, or
/// denotes the same bytes. Any other text must denote a MAC address.
pub open spec fn mac_request(iface: IfaceView, desired: Seq<char>) -> Result<
    Option<RequestView>,
    ErrorView,
> {
    if mac_text(iface.mac_address) == desired {
        Ok(None)
    } else {
        match mac_bytes(desired) {
            None => Err(
                NisporError::spec_invalid_argument(Fault::MalformedMac, Seq::empty(), desired),
            ),
            Some(bytes) => if bytes == iface.mac_address {
                Ok(None)
            } else {
                Ok(Some(RequestView::SetMac { index: iface.index, mac: bytes }))
            },
        }
    }
}

/// Decides whether the MAC address of a live interface is to be set, and to
/// which bytes.
pub fn set_mac_address(iface: &Iface, mac_address: &String) -> (r: Result<
    Option<Request>,
    NisporError,
>)
    ensures
        match mac_request(iface@, mac_address@) {
            Ok(Some(request)) => r matches Ok(Some(x)) && x@ == request,
            Ok(None) => r matches Ok(None),
            Err(e) => r matches Err(x) && x@ == e,
        },
{
    let live = iface.mac_address.as_slice();
    assert(live@.take(live@.len() as int) =~= live@);
    let live_text = parse_as_mac(live.len(), live)?;
    if live_text == *mac_address {
        return Ok(None);
    }
    let bytes = mac_address_str_to_u8(mac_address.as_str())?;
    if bytes_eq(&bytes, &iface.mac_address) {
        Ok(None)
    } else {
        Ok(Some(Request::SetMac { index: iface.index, mac: bytes }))
    }
}

} // verus!
