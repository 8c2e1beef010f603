//! How a request names a block.

use vstd::prelude::*;
use vstd::string::StrSliceExecFns;
use crate::digest::Digest;
use crate::text::chars_of;
use crate::text::decimal;
use crate::text::tip5_digest_display;
use crate::text::from_hex_spec;
use crate::text::parse_u64;
use crate::text::parsed_u64;
use crate::text::tip5_to_text;
use crate::text::try_from_hex;
use crate::text::decimal_string;

verus! {

/// The ways to name a block.
#[derive(Clone, Copy, Debug, PartialEq, Eq, Structural)]
pub enum BlockSelector {
    /// By its digest.
    Digest(Digest),
    /// By its height, counted from the first block.
    Height(u64),
    /// The first block.
    Genesis,
    /// The latest block.
    Tip,
}

/// Why a text names no block.
#[derive(Clone, Copy, Debug, PartialEq, Eq, Structural)]
pub enum BlockSelectorParseError {
    /// The text has not the form of a selector.
    InvalidSelector,
    /// What should be a digest in hex is none.
    InvalidDigest,
}

/// A height or a digest, for a field into which either can be typed.
#[derive(Clone, Copy, Debug, PartialEq, Eq, Structural)]
pub enum HeightOrDigest {
    Digest(Digest),
    Height(u64),
}

/// A block selector that can also be read from `height_or_digest/`
/// followed by a value.
#[derive(Clone, Copy, Debug, PartialEq, Eq, Structural)]
pub struct BlockSelectorExtended(pub BlockSelector);

impl HeightOrDigest {
    /// What `text` is read as: a height where it is a number, else a digest
    /// where it is one in hex.
    pub open spec fn parsed(text: Seq<char>) -> Result<HeightOrDigest, BlockSelectorParseError> {
        match parsed_u64(text) {
            Some(height) => Ok(HeightOrDigest::Height(height)),
            None => match from_hex_spec(text) {
                Some(digest) => Ok(HeightOrDigest::Digest(digest)),
                None => Err(BlockSelectorParseError::InvalidDigest),
            },
        }
    }

    /// The selector that names the same block.
    pub open spec fn selector(self) -> BlockSelector {
        match self {
            HeightOrDigest::Height(height) => BlockSelector::Height(height),
            HeightOrDigest::Digest(digest) => BlockSelector::Digest(digest),
        }
    }

    /// What is shown for the value.
    pub open spec fn text(self) -> Seq<char> {
        match self {
            HeightOrDigest::Digest(digest) => tip5_digest_display(digest@),
            HeightOrDigest::Height(height) => decimal(height as nat),
        }
    }

    /// Reads a height or a digest.
    pub fn from_str(s: &str) -> (res: Result<Self, BlockSelectorParseError>)
        ensures
            res == Self::parsed(s@),
    {
        let chars = chars_of(s);
        match parse_u64(&chars) {
            Some(height) => Ok(HeightOrDigest::Height(height)),
            None => match try_from_hex(s) {
                Some(digest) => Ok(HeightOrDigest::Digest(digest)),
                None => Err(BlockSelectorParseError::InvalidDigest),
            },
        }
    }

    /// The selector that names the same block.
    pub fn into_selector(self) -> (res: BlockSelector)
        ensures
            res == self.selector(),
    {
        match self {
            HeightOrDigest::Height(height) => BlockSelector::Height(height),
            HeightOrDigest::Digest(digest) => BlockSelector::Digest(digest),
        }
    }

    /// The value as text.
    pub fn to_text(&self) -> (res: String)
        ensures
            res@ == self.text(),
    {
        match self {
            HeightOrDigest::Digest(digest) => tip5_to_text(digest.values()),
            HeightOrDigest::Height(height) => decimal_string(*height),
        }
    }
}

impl core::str::FromStr for HeightOrDigest {
    type Err = BlockSelectorParseError;

    fn from_str(s: &str) -> (res: Result<Self, BlockSelectorParseError>)
        ensures
            res == HeightOrDigest::parsed(s@),
    {
        HeightOrDigest::from_str(s)
    }
}

impl From<HeightOrDigest> for BlockSelector {
    fn from(hd: HeightOrDigest) -> (res: Self) {
        hd.into_selector()
    }
}

impl vstd::std_specs::convert::FromSpecImpl<HeightOrDigest> for BlockSelector {
    open spec fn obeys_from_spec() -> bool {
        true
    }

    open spec fn from_spec(hd: HeightOrDigest) -> BlockSelector {
        hd.selector()
    }
}

impl From<HeightOrDigest> for BlockSelectorExtended {
    fn from(hd: HeightOrDigest) -> (res: Self) {
        BlockSelectorExtended(hd.into_selector())
    }
}

impl vstd::std_specs::convert::FromSpecImpl<HeightOrDigest> for BlockSelectorExtended {
    open spec fn obeys_from_spec() -> bool {
        true
    }

    open spec fn from_spec(hd: HeightOrDigest) -> BlockSelectorExtended {
        BlockSelectorExtended(hd.selector())
    }
}

impl From<BlockSelector> for BlockSelectorExtended {
    fn from(v: BlockSelector) -> (res: Self) {
        BlockSelectorExtended(v)
    }
}

impl vstd::std_specs::convert::FromSpecImpl<BlockSelector> for BlockSelectorExtended {
    open spec fn obeys_from_spec() -> bool {
        true
    }

    open spec fn from_spec(v: BlockSelector) -> BlockSelectorExtended {
        BlockSelectorExtended(v)
    }
}

impl From<BlockSelectorExtended> for BlockSelector {
    fn from(v: BlockSelectorExtended) -> (res: Self) {
        v.0
    }
}

impl vstd::std_specs::convert::FromSpecImpl<BlockSelectorExtended> for BlockSelector {
    open spec fn obeys_from_spec() -> bool {
        true
    }

    open spec fn from_spec(v: BlockSelectorExtended) -> BlockSelector {
        v.0
    }
}

/// The number of slashes in `text`.
pub open spec fn slashes(text: Seq<char>) -> nat
    decreases text.len(),
{
    if text.len() == 0 {
        0
    } else {
        slashes(text.drop_last()) + if text.last() == '/' {
            1nat
        } else {
            0nat
        }
    }
}

/// The place of the first slash in `text`, or the length of the text where
/// it has none.
pub open spec fn first_slash(text: Seq<char>) -> int
    decreases text.len(),
{
    if text.len() == 0 {
        0
    } else if text[0] == '/' {
        0
    } else {
        1 + first_slash(text.drop_first())
    }
}

impl BlockSelectorExtended {
    /// What `text` is read as, where `plain` is what it is read as by the
    /// rules for plain selectors. A text that is no plain selector is read as
    /// an extended one where it is `height_or_digest`, one slash, and a
    /// height or a digest.
    pub open spec fn parsed(
        text: Seq<char>,
        plain: Result<BlockSelector, BlockSelectorParseError>,
    ) -> Result<BlockSelectorExtended, BlockSelectorParseError> {
        match plain {
            Ok(selector) => Ok(BlockSelectorExtended(selector)),
            Err(error) => {
                let cut = first_slash(text);
                if slashes(text) == 1 && text.take(cut) == "height_or_digest"@ {
                    match HeightOrDigest::parsed(text.skip(cut + 1)) {
                        Ok(value) => Ok(BlockSelectorExtended(value.selector())),
                        Err(inner) => Err(inner),
                    }
                } else {
                    Err(error)
                }
            },
        }
    }

    /// Reads an extended selector from `s`. `plain` is what the rules for
    /// plain selectors make of the same text.
    pub fn from_str(s: &str, plain: Result<BlockSelector, BlockSelectorParseError>) -> (res: Result<
        Self,
        BlockSelectorParseError,
    >)
        ensures
            res == Self::parsed(s@, plain),
    {
        let error = match plain {
            Ok(selector) => {
                return Ok(BlockSelectorExtended(selector));
            },
            Err(error) => error,
        };
        let chars = chars_of(s);
        let mut count: usize = 0;
        let mut cut: usize = chars.len();
        let mut i: usize = 0;
        assert(chars@.take(0) =~= Seq::<char>::empty());
        assert(chars@.skip(0) =~= chars@);
        while i < chars.len()
            invariant
                i <= chars.len(),
                count <= i,
                count == slashes(chars@.take(i as int)),
                count == 0 ==> cut == chars.len(),
                count == 0 ==> first_slash(chars@) == i + first_slash(chars@.skip(i as int)),
                count > 0 ==> cut == first_slash(chars@) && cut < i,
            decreases chars.len() - i,
        {
            proof {
                assert(chars@.take(i as int + 1).drop_last() =~= chars@.take(i as int));
                assert(chars@.skip(i as int).drop_first() =~= chars@.skip(i as int + 1));
            }
            if chars[i] == '/' {
                if count == 0 {
                    cut = i;
                }
                count = count + 1;
            }
            i = i + 1;
        }
        assert(chars@.take(chars.len() as int) =~= chars@);
        if count != 1 {
            return Err(error);
        }
        let head = "height_or_digest";
        let head_chars = chars_of(head);
        if cut != head_chars.len() {
            assert(chars@.take(cut as int).len() != head@.len());
            return Err(error);
        }
        let mut k: usize = 0;
        while k < cut
            invariant
                k <= cut,
                cut == head_chars@.len(),
                cut < chars@.len(),
                head_chars@ == head@,
                head@ == "height_or_digest"@,
                chars@ == s@,
                plain == Err::<BlockSelector, BlockSelectorParseError>(error),
                slashes(chars@) == 1,
                cut == first_slash(chars@),
                forall|j: int| 0 <= j < k ==> chars@[j] == head_chars@[j],
            decreases cut - k,
        {
            if chars[k] != head_chars[k] {
                assert(chars@.take(cut as int)[k as int] != head@[k as int]);
                return Err(error);
            }
            k = k + 1;
        }
        assert(chars@.take(cut as int) =~= head@);
        let tail = s.substring_char(cut + 1, chars.len());
        assert(tail@ =~= s@.skip(cut as int + 1));
        match HeightOrDigest::from_str(tail) {
            Ok(value) => Ok(BlockSelectorExtended(value.into_selector())),
            Err(inner) => Err(inner),
        }
    }

    /// The plain selector that this one stands for.
    pub fn into_selector(self) -> (res: BlockSelector)
        ensures
            res == self.0,
    {
        self.0
    }
}

} // verus!
