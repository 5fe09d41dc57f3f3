//! Coalesced metadata between the radio owner and the signaling task: the latest wins.
use crate::now_playing::NowPlaying;
use vstd::prelude::*;

verus! {

/// The song that was published last.
#[derive(Debug)]
pub struct Station {
    latest: Option<NowPlaying>,
}

impl View for Station {
    type V = Option<NowPlaying>;

    closed spec fn view(&self) -> Option<NowPlaying> {
        self.latest
    }
}

impl Default for Station {
    fn default() -> (station: Self)
        ensures
            station@ is None,
    {
        Station { latest: None }
    }
}

impl Station {
    /// Puts a copy of the song in place of the one before.
    pub fn publish(&mut self, value: &NowPlaying)
        ensures
            final(self)@ == Some(*value),
    {
        self.latest = Some(value.clone());
    }

    /// A copy of the song that was published last; `None` before the first.
    pub fn snapshot(&self) -> (snapshot: Option<NowPlaying>)
        ensures
            snapshot == self@,
    {
        match &self.latest {
            Some(latest) => Some(latest.clone()),
            None => None,
        }
    }
}

} // verus!
