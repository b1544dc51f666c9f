use vstd::prelude::*;

verus! {

/// `String::push` appends one character to the end of the string.
pub assume_specification[ String::push ](s: &mut String, c: char)
    ensures
        final(s)@ == old(s)@.push(c),
;

/// Letter of a file: `a` for file 0 up to `h` for file 7.
pub open spec fn file_char(file: int) -> char {
    ((97 + file) as u8) as char
}

/// Digit of a rank: `1` for rank 0 up to `8` for rank 7.
pub open spec fn rank_char(rank: int) -> char {
    ((49 + rank) as u8) as char
}

/// Letter of a file.
pub fn file_to_char(file: u8) -> (r: char)
    requires
        file < 8,
    ensures
        r == file_char(file as int),
{
    (97u8 + file) as char
}

/// Digit of a rank.
pub fn rank_to_char(rank: u8) -> (r: char)
    requires
        rank < 8,
    ensures
        r == rank_char(rank as int),
{
    (49u8 + rank) as char
}

/// The characters of `text`, in order.
pub fn chars_of(text: &str) -> (r: Vec<char>)
    ensures
        r@ == text@,
{
    let n: usize = text.unicode_len();
    let mut out: Vec<char> = Vec::new();
    let mut i: usize = 0;
    while i < n
        invariant
            i <= n,
            n == text@.len(),
            out@ == text@.subrange(0, i as int),
        decreases n - i,
    {
        let c: char = text.get_char(i);
        out.push(c);
        assert(out@ =~= text@.subrange(0, i + 1));
        i = i + 1;
    }
    assert(text@.subrange(0, n as int) =~= text@);
    out
}

/// The string made of `chars`, in order.
pub fn string_of(chars: &Vec<char>) -> (r: String)
    ensures
        r@ == chars@,
{
    let mut out: String = String::new();
    let mut i: usize = 0;
    while i < chars.len()
        invariant
            i <= chars.len(),
            out@ == chars@.subrange(0, i as int),
        decreases chars.len() - i,
    {
        out.push(chars[i]);
        assert(out@ =~= chars@.subrange(0, i + 1));
        i = i + 1;
    }
    assert(chars@.subrange(0, chars.len() as int) =~= chars@);
    out
}

} // verus!
