//! The output renderer for a single source: the first `n` lines of its
//! bytes, or its first `n` bytes decoded permissively, and the header a
//! multi-source run puts above each source.

use vstd::prelude::*;
use vstd::string::StrSliceExecFns;
use vstd::string::StringExecFns;
use vstd::utf8::decode_utf8;
use vstd::utf8::valid_utf8;

verus! {

/// The line-feed byte that terminates a line.
pub const LINE_FEED: u8 = 10;

/// The prefix of `data` holding its first `n` lines: bytes are taken up
/// to and including the `n`-th line feed, or to the end of `data` if
/// fewer remain. Terminator bytes are kept verbatim.
pub open spec fn line_prefix(data: Seq<u8>, n: nat) -> Seq<u8>
    decreases data.len(),
{
    if n == 0 || data.len() == 0 {
        Seq::empty()
    } else if data[0] == LINE_FEED {
        seq![data[0]] + line_prefix(data.skip(1), (n - 1) as nat)
    } else {
        seq![data[0]] + line_prefix(data.skip(1), n)
    }
}

/// How many line feeds `data` holds.
pub open spec fn line_feed_count(data: Seq<u8>) -> nat
    decreases data.len(),
{
    if data.len() == 0 {
        0
    } else if data[0] == LINE_FEED {
        1 + line_feed_count(data.skip(1))
    } else {
        line_feed_count(data.skip(1))
    }
}

/// A line count beyond the number of line terminators takes the whole
/// input: asking for more lines than a source has prints it in full.
pub proof fn lemma_line_prefix_whole(data: Seq<u8>, n: nat)
    requires
        n > line_feed_count(data),
    ensures
        line_prefix(data, n) == data,
    decreases data.len(),
{
    if data.len() == 0 {
        assert(line_prefix(data, n) =~= data);
    } else {
        if data[0] == LINE_FEED {
            lemma_line_prefix_whole(data.skip(1), (n - 1) as nat);
        } else {
            lemma_line_prefix_whole(data.skip(1), n);
        }
        assert(seq![data[0]] + data.skip(1) =~= data);
    }
}

/// Reads the first `count` lines of `data`, terminators included.
pub fn head_lines(data: &Vec<u8>, count: usize) -> (r: Vec<u8>)
    ensures
        r@ == line_prefix(data@, count as nat),
{
    let mut i: usize = 0;
    let mut rem: usize = count;
    let len = data.len();
    proof {
        assert(data@.take(0) =~= Seq::<u8>::empty());
        assert(data@.skip(0) =~= data@);
    }
    while i < len && rem > 0
        invariant
            i <= len,
            len == data@.len(),
            rem <= count,
            line_prefix(data@, count as nat) == data@.take(i as int) + line_prefix(
                data@.skip(i as int),
                rem as nat,
            ),
        decreases len - i,
    {
        let ghost pre = data@.skip(i as int);
        proof {
            assert(pre[0] == data@[i as int]);
            assert(pre.skip(1) =~= data@.skip(i + 1));
            assert(data@.take(i + 1) =~= data@.take(i as int) + seq![data@[i as int]]);
        }
        if data[i] == LINE_FEED {
            rem = rem - 1;
        }
        i = i + 1;
    }
    proof {
        if rem == 0 {
            assert(line_prefix(data@.skip(i as int), 0) =~= Seq::<u8>::empty());
        } else {
            assert(data@.skip(i as int) =~= Seq::<u8>::empty());
        }
        assert(line_prefix(data@, count as nat) =~= data@.take(i as int));
    }
    let mut r: Vec<u8> = Vec::new();
    let mut j: usize = 0;
    while j < i
        invariant
            j <= i <= len,
            len == data@.len(),
            r@ == data@.take(j as int),
        decreases i - j,
    {
        r.push(data[j]);
        proof {
            assert(data@.take(j + 1) =~= data@.take(j as int) + seq![data@[j as int]]);
        }
        j = j + 1;
    }
    r
}

/// The first `n` bytes of `data`, or all of it when it is shorter.
pub open spec fn byte_prefix(data: Seq<u8>, n: nat) -> Seq<u8> {
    if n <= data.len() {
        data.take(n as int)
    } else {
        data
    }
}

/// A byte count at or beyond the source's size takes the whole input,
/// with nothing added.
pub proof fn lemma_byte_prefix_whole(data: Seq<u8>, n: nat)
    requires
        n >= data.len(),
    ensures
        byte_prefix(data, n) == data,
{
    if n <= data.len() {
        assert(data.take(n as int) =~= data);
    }
}

/// What the permissive decoder yields on bytes that are not valid UTF-8.
pub uninterp spec fn lossy_fallback(b: Seq<u8>) -> Seq<char>;

/// The permissive text decoding: valid UTF-8 reads as the characters it
/// encodes; anything else reads as the bytes with each invalid sequence
/// replaced by the replacement character.
pub open spec fn lossy_chars(b: Seq<u8>) -> Seq<char> {
    if valid_utf8(b) {
        decode_utf8(b)
    } else {
        lossy_fallback(b)
    }
}

/// Relies on String::from_utf8_lossy: bytes that are valid UTF-8 decode
/// to exactly the characters they encode, and the result depends on the
/// bytes alone.
#[verifier::external_body]
fn lossy_decode(b: &Vec<u8>) -> (r: String)
    ensures
        r@ == lossy_chars(b@),
        !valid_utf8(b@) ==> r@ == lossy_fallback(b@),
{
    String::from_utf8_lossy(b.as_slice()).into_owned()
}

/// Reads the first `count` bytes of `data`, decoded permissively.
pub fn head_bytes(data: &Vec<u8>, count: usize) -> (r: String)
    ensures
        r@ == lossy_chars(byte_prefix(data@, count as nat)),
{
    let len = data.len();
    let end = if count <= len {
        count
    } else {
        len
    };
    let mut prefix: Vec<u8> = Vec::new();
    let mut j: usize = 0;
    while j < end
        invariant
            j <= end <= len,
            len == data@.len(),
            prefix@ == data@.take(j as int),
        decreases end - j,
    {
        prefix.push(data[j]);
        proof {
            assert(data@.take(j + 1) =~= data@.take(j as int) + seq![data@[j as int]]);
        }
        j = j + 1;
    }
    proof {
        if count > len {
            assert(data@.take(len as int) =~= data@);
        }
        assert(prefix@ == byte_prefix(data@, count as nat));
    }
    lossy_decode(&prefix)
}

/// The header a multi-source run prints above one source: the source's
/// name between arrows, preceded by a blank line for every source after
/// the first.
pub open spec fn header_chars(name: Seq<char>, first: bool) -> Seq<char> {
    (if first {
        Seq::<char>::empty()
    } else {
        "\n"@
    }) + "==> "@ + name + " <==\n"@
}

/// Builds the header line for one source.
pub fn header_line(name: &str, first: bool) -> (r: String)
    ensures
        r@ == header_chars(name@, first),
{
    let mut r = String::new();
    if !first {
        r.append("\n");
    }
    r.append("==> ");
    r.append(name);
    r.append(" <==\n");
    proof {
        assert(r@ =~= header_chars(name@, first));
    }
    r
}

} // verus!
