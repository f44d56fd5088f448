//! Splitting a post file into its YAML front matter and its Markdown body.
//!
//! A post file reads `---`, the YAML header, `---`, then the body. The
//! header runs from the first `---` up to the second one; the body is what
//! follows the second `---`. Positions are byte offsets into the UTF-8 text.

use vstd::prelude::*;
use vstd::utf8::*;
use vstd::string::StringSliceAdditionalSpecFns;

verus! {

broadcast use {vstd::utf8::group_utf8_lib, vstd::string::group_string_axioms};

/// The byte of `-`.
pub open spec fn dash() -> u8 {
    45u8
}

/// `---` starts at byte `i` of `b`.
pub open spec fn dashes_at(b: Seq<u8>, i: int) -> bool {
    &&& 0 <= i
    &&& i + 3 <= b.len()
    &&& b[i] == dash()
    &&& b[i + 1] == dash()
    &&& b[i + 2] == dash()
}

/// The first position at or after `from` where `---` starts, as `str::find`
/// reports it.
pub open spec fn find_dashes(b: Seq<u8>, from: nat) -> Option<nat>
    decreases b.len() - from,
{
    if from + 3 > b.len() {
        None
    } else if dashes_at(b, from as int) {
        Some(from)
    } else {
        find_dashes(b, from + 1)
    }
}

/// What `find_dashes` reports: the first `---` at or after `from`.
pub proof fn lemma_find_dashes(b: Seq<u8>, from: nat)
    ensures
        match find_dashes(b, from) {
            Some(i) => {
                &&& from <= i
                &&& dashes_at(b, i as int)
                &&& forall|j: int| from <= j < i ==> !dashes_at(b, j)
            },
            None => forall|j: int| from <= j ==> !dashes_at(b, j),
        },
    decreases b.len() - from,
{
    if from + 3 <= b.len() && !dashes_at(b, from as int) {
        lemma_find_dashes(b, from + 1);
    }
}

/// Why a post file could not be split.
#[derive(Debug, Clone, Copy, PartialEq, Eq, Structural)]
pub enum FrontMatterError {
    /// The file holds no `---` at all.
    HeaderNotFound,
    /// No second `---` follows the first one.
    ContentNotFound,
}

impl FrontMatterError {
    /// The message that the error is reported with.
    pub fn message(&self) -> (res: &'static str)
        ensures
            res@ == match self {
                FrontMatterError::HeaderNotFound => "--- header not found"@,
                FrontMatterError::ContentNotFound => "--- content not found"@,
            },
    {
        match self {
            FrontMatterError::HeaderNotFound => "--- header not found",
            FrontMatterError::ContentNotFound => "--- content not found",
        }
    }
}

/// Where the header starts (`h`) and where the first `---` after it starts,
/// relative to the byte after the first `---` (`r`).
pub open spec fn split_points(b: Seq<u8>) -> Option<(nat, nat)> {
    match find_dashes(b, 0) {
        Some(h) => match find_dashes(b, h + 3) {
            Some(a) => Some((h, (a - h - 3) as nat)),
            None => None,
        },
        None => None,
    }
}

/// The header spans bytes `h .. r + 3`; the body starts at the header's
/// length plus three, that is at `r + 6 - h`. (For a file that starts with
/// `---`, `h` is 0 and these are the bytes before and after the second
/// `---`.)
pub open spec fn body_start(h: nat, r: nat) -> int {
    r + 6 - h
}

/// The inputs on which the split can be made: both ends of the header and
/// the start of the body fall on character boundaries, and the header does
/// not end before it starts.
pub open spec fn splittable(b: Seq<u8>) -> bool {
    match split_points(b) {
        Some((h, r)) => {
            &&& h <= r + 3
            &&& is_char_boundary(b, (r + 3) as int)
            &&& is_char_boundary(b, body_start(h, r))
        },
        None => true,
    }
}

/// A file that starts with `---` is its header, then `---`, then its body;
/// the header holds no `---` but its first three bytes.
pub proof fn law_front_matter_reassembles(b: Seq<u8>)
    requires
        split_points(b) matches Some((h, r)) && h == 0,
    ensures
        ({
            let (h, r) = split_points(b)->0;
            &&& b == b.subrange(0, (r + 3) as int) + seq![dash(), dash(), dash()] + b.subrange(
                body_start(h, r),
                b.len() as int,
            )
            &&& forall|j: int| 3 <= j < r + 3 ==> !dashes_at(b, j)
        }),
{
    lemma_find_dashes(b, 0);
    let h = find_dashes(b, 0)->0;
    lemma_find_dashes(b, h + 3);
    let (h, r) = split_points(b)->0;
    assert(dashes_at(b, (r + 3) as int));
    assert(b =~= b.subrange(0, (r + 3) as int) + seq![dash(), dash(), dash()] + b.subrange(
        body_start(h, r),
        b.len() as int,
    ));
}

/// Wherever the text holds a first `---` (at `h`) and a first `---` at or
/// after `h + 3` (at `a`), the split is made there, whatever follows: the
/// header is the bytes from `h` up to `a - h`, and the body the bytes from
/// `a - 2h + 3` to the end.
pub proof fn law_split_at_first_two_dashes(b: Seq<u8>, h: int, a: int)
    requires
        dashes_at(b, h),
        forall|j: int| 0 <= j < h ==> !dashes_at(b, j),
        h + 3 <= a,
        dashes_at(b, a),
        forall|j: int| h + 3 <= j < a ==> !dashes_at(b, j),
    ensures
        split_points(b) matches Some((sh, sr)) && sh == h && sr + 3 == a - h && body_start(sh, sr)
            == a - 2 * h + 3,
{
    lemma_find_dashes(b, 0);
    lemma_find_dashes(b, (h + 3) as nat);
    let fh = find_dashes(b, 0);
    assert(fh is Some);
    assert(fh->0 == h) by {
        if fh->0 < h {
            assert(!dashes_at(b, fh->0 as int));
        }
    }
    let fa = find_dashes(b, (h + 3) as nat);
    assert(fa is Some);
    assert(fa->0 == a) by {
        if fa->0 < a {
            assert(!dashes_at(b, fa->0 as int));
        }
    }
}

/// The first position at or after `from` where `---` starts.
fn find_dashes_from(b: &[u8], from: usize) -> (res: Option<usize>)
    requires
        from <= b@.len(),
    ensures
        match res {
            Some(i) => find_dashes(b@, from as nat) == Some(i as nat),
            None => find_dashes(b@, from as nat) is None,
        },
{
    let len = b.len();
    let mut i = from;
    while len - i >= 3
        invariant
            from <= i <= len,
            len == b@.len(),
            find_dashes(b@, from as nat) == find_dashes(b@, i as nat),
        decreases len - i,
    {
        if b[i] == 45u8 && b[i + 1] == 45u8 && b[i + 2] == 45u8 {
            return Some(i);
        }
        i = i + 1;
    }
    None
}

/// Split a post file into its header and its body.
///
/// `Err(HeaderNotFound)` when the text holds no `---`;
/// `Err(ContentNotFound)` when no `---` follows the first one; otherwise
/// the header and the body as described by `split_points`.
pub fn split_front_matter<'a>(raw: &'a str) -> (res: Result<(&'a str, &'a str), FrontMatterError>)
    requires
        splittable(raw.spec_bytes()),
    ensures
        find_dashes(raw.spec_bytes(), 0) is None ==> res == Err::<(&str, &str), _>(
            FrontMatterError::HeaderNotFound,
        ),
        find_dashes(raw.spec_bytes(), 0) is Some && split_points(raw.spec_bytes()) is None
            ==> res == Err::<(&str, &str), _>(FrontMatterError::ContentNotFound),
        match split_points(raw.spec_bytes()) {
            Some((h, r)) => res matches Ok((header, body)) && {
                &&& header.spec_bytes() == raw.spec_bytes().subrange(h as int, (r + 3) as int)
                &&& body.spec_bytes() == raw.spec_bytes().subrange(
                    body_start(h, r),
                    raw.spec_bytes().len() as int,
                )
            },
            None => res is Err,
        },
{
    let bytes = raw.as_bytes();
    let len = bytes.len();
    let ghost b = raw.spec_bytes();
    proof {
        encode_utf8_valid_utf8(raw@);
    }
    let h = match find_dashes_from(bytes, 0) {
        Some(h) => h,
        None => {
            return Err(FrontMatterError::HeaderNotFound);
        },
    };
    proof {
        lemma_find_dashes(b, 0);
    }
    let a = match find_dashes_from(bytes, h + 3) {
        Some(a) => a,
        None => {
            return Err(FrontMatterError::ContentNotFound);
        },
    };
    proof {
        lemma_find_dashes(b, (h + 3) as nat);
    }
    let r = a - h - 3;
    // the header: bytes h .. r + 3
    let (upto, _) = raw.split_at(r + 3);
    proof {
        valid_utf8_split(b, (r + 3) as int);
        assert(upto.spec_bytes() =~= b.subrange(0, (r + 3) as int));
        if h < r + 3 {
            assert(upto.spec_bytes()[h as int] == b[h as int]);
            is_char_boundary_iff_not_is_continuation_byte(upto.spec_bytes(), h as int);
        } else {
            is_char_boundary_start_end_of_seq(upto.spec_bytes());
        }
    }
    let (_, header) = upto.split_at(h);
    proof {
        assert(header.spec_bytes() =~= b.subrange(h as int, (r + 3) as int));
    }
    // the body: bytes (r + 3 - h) + 3 .. end
    let start = (r + 3 - h) + 3;
    let (_, body) = raw.split_at(start);
    proof {
        assert(body.spec_bytes() =~= b.subrange(start as int, b.len() as int));
    }
    Ok((header, body))
}

} // verus!
