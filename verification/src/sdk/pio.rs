//! The pv-pad latch window: per-frame controller reads and the frame
//! counter, over the window's 32-bit words.
use vstd::prelude::*;

verus! {

/// Bytes in the pv-pad MMIO window.
pub const PV_PAD_SIZE: usize = 0x1000;
/// 32-bit words in the pv-pad window.
pub const PV_PAD_WORDS: usize = 1024;
/// Byte offset of pad 0's latch.
pub const PVPAD_PAD0_OFF: usize = 0x08;
/// Byte offset of the frame counter.
pub const PVPAD_FRAME_COUNTER_OFF: usize = 0x1C;
/// Word index of pad 0's latch.
pub const PVPAD_PAD0_WORD: usize = 2;
/// Word index of the frame counter.
pub const PVPAD_FRAME_COUNTER_WORD: usize = 7;
/// Pads the window latches.
pub const PVPAD_PAD_COUNT: u8 = 4;

/// The pad state: the pv-pad window's words when it is mapped.
#[derive(Debug)]
pub struct PioState {
    pv_pad: Option<Vec<u32>>,
}

impl View for PioState {
    type V = Option<Seq<u32>>;

    closed spec fn view(&self) -> Option<Seq<u32>> {
        match self.pv_pad {
            Some(w) => Some(w@),
            None => None,
        }
    }
}

impl PioState {
    /// The window, if mapped, has one word per 4 bytes.
    pub open spec fn wf(&self) -> bool {
        self@ matches Some(w) ==> w.len() == PV_PAD_WORDS
    }

    /// No pv-pad window (standalone mode).
    pub fn standalone() -> (r: Self)
        ensures
            r@ is None,
    {
        PioState { pv_pad: None }
    }

    /// A pv-pad window holding `words`.
    pub fn with_pv_pad(words: Vec<u32>) -> (r: Self)
        requires
            words@.len() == PV_PAD_WORDS,
        ensures
            r@ == Some(words@),
            r.wf(),
    {
        PioState { pv_pad: Some(words) }
    }

    /// The controller latch of pad `port`: 0 for a port past the last pad
    /// or without a window.
    pub fn poll_input(&self, port: u8) -> (r: u32)
        requires
            self.wf(),
        ensures
            r == match self@ {
                Some(w) => if port < PVPAD_PAD_COUNT {
                    w[PVPAD_PAD0_WORD + port]
                } else {
                    0
                },
                None => 0,
            },
    {
        if port >= PVPAD_PAD_COUNT {
            return 0;
        }
        match &self.pv_pad {
            Some(w) => w[PVPAD_PAD0_WORD + port as usize],
            None => 0,
        }
    }

    /// Publish the frame counter to the window, if there is one.
    pub fn write_frame_counter(&mut self, frame_index: u32)
        requires
            old(self).wf(),
        ensures
            final(self).wf(),
            final(self)@ == match old(self)@ {
                Some(w) => Some(w.update(PVPAD_FRAME_COUNTER_WORD as int, frame_index)),
                None => None,
            },
    {
        match &mut self.pv_pad {
            Some(w) => {
                w.set(PVPAD_FRAME_COUNTER_WORD, frame_index);
            },
            None => {},
        }
    }

    /// Word `index` of the window, if mapped.
    pub fn pv_pad_word(&self, index: usize) -> (r: Option<u32>)
        requires
            self.wf(),
            index < PV_PAD_WORDS,
        ensures
            r == match self@ {
                Some(w) => Some(w[index as int]),
                None => None::<u32>,
            },
    {
        match &self.pv_pad {
            Some(w) => Some(w[index]),
            None => None,
        }
    }

    /// The device side: latch `value` into word `index` of the window.
    pub fn latch_pv_pad_word(&mut self, index: usize, value: u32)
        requires
            old(self).wf(),
            index < PV_PAD_WORDS,
        ensures
            final(self).wf(),
            final(self)@ == match old(self)@ {
                Some(w) => Some(w.update(index as int, value)),
                None => None,
            },
    {
        match &mut self.pv_pad {
            Some(w) => {
                w.set(index, value);
            },
            None => {},
        }
    }
}

} // verus!
