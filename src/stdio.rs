use vstd::prelude::*;

verus! {

/// The byte that ends a line typed at the terminal.
pub const CARRIAGE_RETURN: u8 = 0xd;

/// One answer of the terminal server to a read: 0 means no key yet (yield
/// and ask again), anything else is the key.
pub fn getchar(answer: usize) -> (r: Option<u8>)
    ensures
        answer == 0 ==> r is None,
        answer != 0 ==> r == Some(answer as u8),
{
    if answer == 0 {
        None
    } else {
        Some(answer as u8)
    }
}

/// The bytes of the line in `input`: those before its first carriage
/// return, or `None` while no carriage return has come yet.
pub fn line_bytes(input: &Vec<u8>) -> (r: Option<Vec<u8>>)
    ensures
        match r {
            Some(line) => {
                &&& line@.len() < input@.len()
                &&& input@[line@.len() as int] == CARRIAGE_RETURN
                &&& line@ == input@.subrange(0, line@.len() as int)
                &&& forall|j: int| 0 <= j < line@.len() ==> input@[j] != CARRIAGE_RETURN
            },
            None => forall|j: int| 0 <= j < input@.len() ==> input@[j] != CARRIAGE_RETURN,
        },
{
    let mut v: Vec<u8> = Vec::new();
    let mut i: usize = 0;
    while i < input.len()
        invariant
            i <= input@.len(),
            v@ == input@.subrange(0, i as int),
            forall|j: int| 0 <= j < i ==> input@[j] != CARRIAGE_RETURN,
        decreases input@.len() - i,
    {
        let c = input[i];
        if c == CARRIAGE_RETURN {
            return Some(v);
        }
        v.push(c);
        i = i + 1;
        assert(v@ =~= input@.subrange(0, i as int));
    }
    None
}

/// What `String::from_utf8` makes of `bytes`: the characters they encode,
/// or `None` when they are not valid UTF-8.
pub uninterp spec fn utf8_decode(bytes: Seq<u8>) -> Option<Seq<char>>;

/// Relies on `String::from_utf8`: decodes UTF-8 and refuses invalid bytes.
#[verifier::external_body]
fn decode_utf8(bytes: Vec<u8>) -> (r: Option<String>)
    ensures
        match r {
            Some(s) => utf8_decode(bytes@) == Some(s@),
            None => utf8_decode(bytes@) is None,
        },
{
    String::from_utf8(bytes).ok()
}

/// `n` is where the first line of `input` ends: its first carriage return.
pub open spec fn line_end(input: Seq<u8>, n: int) -> bool {
    &&& 0 <= n < input.len()
    &&& input[n] == CARRIAGE_RETURN
    &&& forall|j: int| 0 <= j < n ==> input[j] != CARRIAGE_RETURN
}

/// The line typed so far: `None` while no carriage return has come;
/// otherwise the text before the first one, or its bytes back when they are
/// not valid UTF-8.
pub fn getline(input: &Vec<u8>) -> (r: Option<Result<String, Vec<u8>>>)
    ensures
        r is None <==> forall|j: int| 0 <= j < input@.len() ==> input@[j] != CARRIAGE_RETURN,
        r matches Some(x) ==> exists|n: int| #[trigger] line_end(input@, n) && match x {
            Ok(s) => utf8_decode(input@.subrange(0, n)) == Some(s@),
            Err(b) => b@ == input@.subrange(0, n) && utf8_decode(input@.subrange(0, n)) is None,
        },
{
    match line_bytes(input) {
        None => None,
        Some(line) => {
            let ghost n = line@.len() as int;
            assert(line_end(input@, n));
            let copy = line.clone();
            match decode_utf8(line) {
                Some(s) => Some(Ok(s)),
                None => Some(Err(copy)),
            }
        },
    }
}

} // verus!
