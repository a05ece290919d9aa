use vstd::prelude::*;
use vstd::string::StringExecFns;

verus! {

/// What `str::trim` leaves of a string: the characters between the first
/// and the last that are not Unicode white space.
pub uninterp spec fn trimmed(s: Seq<char>) -> Seq<char>;

/// Relies on `str::trim`: leading and trailing white space removed.
#[verifier::external_body]
fn trim_text(s: &str) -> (r: &str)
    ensures
        r@ == trimmed(s@),
{
    s.trim()
}

/// Relies on `String::push`: appends one character.
#[verifier::external_body]
fn push_char(s: &mut String, c: char)
    ensures
        final(s)@ == old(s)@.push(c),
{
    s.push(c)
}

/// Identify words `from..to` as text: each word gives two characters, high
/// byte first, each byte read as the character of that code.
pub open spec fn text_of_words(w: Seq<u16>, from: int, to: int) -> Seq<char> {
    Seq::new(
        (2 * (to - from)) as nat,
        |i: int|
            if i % 2 == 0 {
                ((w[from + i / 2] >> 8u16) as u8) as char
            } else {
                ((w[from + i / 2] & 0xFFu16) as u8) as char
            },
    )
}

/// Total addressable sectors: word 61 is the high half, word 60 the low.
pub open spec fn sector_count_of(w: Seq<u16>) -> u32 {
    (w[61] as int * 0x10000 + w[60] as int) as u32
}

pub open spec fn serial_of(w: Seq<u16>) -> Seq<char> {
    trimmed(text_of_words(w, 10, 20))
}

pub open spec fn model_of(w: Seq<u16>) -> Seq<char> {
    trimmed(text_of_words(w, 27, 47))
}

/// What the IDENTIFY data says about a drive.
#[derive(Debug)]
pub struct IdentifyInfo {
    pub model: String,
    pub serial: String,
    pub sector_count: u32,
}

/// The text in words `from..to`, before trimming.
pub fn identify_text(words: &[u16; 256], from: usize, to: usize) -> (s: String)
    requires
        from <= to <= 256,
    ensures
        s@ == text_of_words(words@, from as int, to as int),
{
    let mut s = String::new();
    let mut i = from;
    while i < to
        invariant
            from <= i <= to <= 256,
            s@ == text_of_words(words@, from as int, i as int),
        decreases to - i,
    {
        let w = words[i];
        let hi = (w >> 8u16) as u8;
        let lo = (w & 0xFFu16) as u8;
        push_char(&mut s, hi as char);
        push_char(&mut s, lo as char);
        i = i + 1;
        assert(s@ =~= text_of_words(words@, from as int, i as int));
    }
    s
}

fn trimmed_string(s: &String) -> (r: String)
    ensures
        r@ == trimmed(s@),
{
    String::from_str(trim_text(s.as_str()))
}

/// Decodes serial number (words 10..20), model (words 27..47) and sector
/// count (words 60 and 61) from the 256 IDENTIFY words.
pub fn decode_identify(words: &[u16; 256]) -> (info: IdentifyInfo)
    ensures
        info.serial@ == serial_of(words@),
        info.model@ == model_of(words@),
        info.sector_count == sector_count_of(words@),
{
    let serial = trimmed_string(&identify_text(words, 10, 20));
    let model = trimmed_string(&identify_text(words, 27, 47));
    let hi = words[61];
    let lo = words[60];
    let sector_count: u32 = ((hi as u32) << 16u32) | (lo as u32);
    assert(sector_count == (hi as int * 0x10000 + lo as int) as u32) by (bit_vector)
        requires
            sector_count == ((hi as u32) << 16u32) | (lo as u32),
    ;
    IdentifyInfo { model, serial, sector_count }
}

/// Capacity in bytes of `sectors` sectors of 512 bytes.
pub open spec fn capacity_bytes(sectors: u32) -> int {
    sectors as int * 512
}

/// Capacity as a whole number of MB (2^20 bytes) below 1000 MB, else of GB
/// (2^30 bytes), rounded down.
pub fn disk_size(sectors: u32) -> (r: (u32, String))
    ensures
        capacity_bytes(sectors) / 0x100000 < 1000 ==> r.0 == capacity_bytes(sectors) / 0x100000
            && r.1@ == "MB"@,
        capacity_bytes(sectors) / 0x100000 >= 1000 ==> r.0 == capacity_bytes(sectors) / 0x40000000
            && r.1@ == "GB"@,
{
    let bytes: u64 = sectors as u64 * 512;
    let mb: u64 = bytes / 0x100000;
    if mb < 1000 {
        (mb as u32, String::from_str("MB"))
    } else {
        ((bytes / 0x40000000) as u32, String::from_str("GB"))
    }
}

} // verus!
