//! The frame that bardecoder searches, and what is reported of its results.
//!
//! The bardecoder call itself is made by the application: bardecoder's extractor
//! can panic on frames whose detected code reaches past the picture, and no
//! condition on the frame's bytes rules those frames out.
use vstd::prelude::*;

use crate::qr::frame::{RgbaFrame, TOP_HEIGHT, TOP_WIDTH};

verus! {

/// The scanner's frame.
pub struct Scanner {
    pub image: RgbaFrame,
}

/// What decoding one detected code gave: its text, or the message of the error.
#[derive(Debug)]
pub enum DecodeOutcome {
    Frame(String),
    Failure(String),
}

impl View for DecodeOutcome {
    type V = Result<Seq<char>, Seq<char>>;

    open spec fn view(&self) -> Result<Seq<char>, Seq<char>> {
        match self {
            DecodeOutcome::Frame(s) => Ok(s@),
            DecodeOutcome::Failure(e) => Err(e@),
        }
    }
}

/// The frames that are read off the end of the outcomes, last first, up to the
/// first failure from the end.
pub open spec fn trailing_frames(outcomes: Seq<Result<Seq<char>, Seq<char>>>) -> Seq<Seq<char>>
    decreases outcomes.len(),
{
    if outcomes.len() == 0 {
        seq![]
    } else {
        match outcomes.last() {
            Ok(text) => seq![text] + trailing_frames(outcomes.drop_last()),
            Err(_) => seq![],
        }
    }
}

/// Takes outcomes from the end while they are frames: their texts, last first.
pub fn found_frames(outcomes: &Vec<DecodeOutcome>) -> (frames: Vec<String>)
    ensures
        frames.deep_view() == trailing_frames(outcomes@.map_values(|o: DecodeOutcome| o@)),
{
    let ghost all = outcomes@.map_values(|o: DecodeOutcome| o@);
    let mut frames: Vec<String> = Vec::new();
    let mut i = outcomes.len();
    assert(all.subrange(0, i as int) =~= all);
    assert(frames.deep_view() + trailing_frames(all) =~= trailing_frames(all));
    loop
        invariant
            i <= outcomes@.len(),
            all == outcomes@.map_values(|o: DecodeOutcome| o@),
            frames.deep_view() + trailing_frames(all.subrange(0, i as int)) == trailing_frames(
                all,
            ),
        ensures
            frames.deep_view() == trailing_frames(all),
        decreases i,
    {
        if i == 0 {
            assert(trailing_frames(all.subrange(0, 0)) =~= Seq::<Seq<char>>::empty());
            assert(frames.deep_view() + Seq::<Seq<char>>::empty() =~= frames.deep_view());
            break;
        }
        let ghost prefix = all.subrange(0, i as int);
        assert(prefix.drop_last() =~= all.subrange(0, i - 1));
        assert(prefix.last() == outcomes@[i - 1]@);
        match &outcomes[i - 1] {
            DecodeOutcome::Frame(text) => {
                let ghost before = frames.deep_view();
                frames.push(text.clone());
                assert(frames.deep_view() =~= before.push(text@));
                assert(before + trailing_frames(prefix) =~= frames.deep_view() + trailing_frames(
                    all.subrange(0, i - 1),
                ));
                i = i - 1;
            },
            DecodeOutcome::Failure(_) => {
                assert(trailing_frames(prefix) =~= Seq::<Seq<char>>::empty());
                assert(frames.deep_view() + trailing_frames(prefix) =~= frames.deep_view());
                break;
            },
        }
    }
    frames
}

impl Default for Scanner {
    /// A scanner whose frame is a blank top-screen image.
    fn default() -> (s: Scanner)
        ensures
            s.image.wf(),
            s.image.width == TOP_WIDTH,
            s.image.height == TOP_HEIGHT,
            forall|i: int| 0 <= i < s.image.pixels@.len() ==> #[trigger] s.image.pixels@[i] == 0u8,
    {
        Scanner { image: RgbaFrame::new(TOP_WIDTH, TOP_HEIGHT) }
    }
}

} // verus!
