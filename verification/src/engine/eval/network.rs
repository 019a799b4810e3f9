//! The weights of the evaluation network: 768 inputs, one for each piece on
//! each square, a hidden layer of 256 for each side, and one output.

use vstd::prelude::*;
use crate::engine::transposition::{bits_to_signed, of_bits};

verus! {

pub const NUM_FEATURES: usize = 768;

pub const HIDDEN_SIZE: usize = 256;

pub const CR_MIN: i32 = 0;

pub const CR_MAX: i32 = 255;

pub const QA: i32 = 255;

pub const QAB: i32 = 255 * 64;

pub const EVAL_SCALE: i32 = 400;

/// The number of 16-bit numbers in the file of a network.
pub const NUM_WORDS: usize = 768 * 256 + 256 + 512 + 1;

pub struct Network {
    pub feature_weights: Vec<i16>,
    pub feature_biases: Vec<i16>,
    pub output_weights: Vec<i16>,
    pub output_bias: i16,
}

/// The `k`-th number of a file: two bytes, the lower one first.
pub open spec fn word(blob: Seq<u8>, k: int) -> i16 {
    of_bits((blob[2 * k] + 256 * blob[2 * k + 1]) as u16)
}

impl Network {
    pub open spec fn wf(&self) -> bool {
        &&& self.feature_weights.len() == 768 * 256
        &&& self.feature_biases.len() == 256
        &&& self.output_weights.len() == 512
    }

    /// The network whose numbers are all zero.
    pub fn zero() -> (r: Network)
        ensures
            r.wf(),
            forall|k: int| 0 <= k < 768 * 256 ==> r.feature_weights[k] == 0,
            forall|k: int| 0 <= k < 256 ==> r.feature_biases[k] == 0,
            forall|k: int| 0 <= k < 512 ==> r.output_weights[k] == 0,
            r.output_bias == 0,
    {
        Network {
            feature_weights: vec![0i16; 196608],
            feature_biases: vec![0i16; 256],
            output_weights: vec![0i16; 512],
            output_bias: 0,
        }
    }

    fn read_words(blob: &[u8], first: usize, count: usize) -> (r: Vec<i16>)
        requires
            2 * (first + count) <= blob.len(),
        ensures
            r.len() == count,
            forall|k: int| 0 <= k < count ==> r[k] == word(blob@, first + k),
    {
        let mut r: Vec<i16> = Vec::new();
        let mut k: usize = 0;
        while k < count
            invariant
                k <= count,
                2 * (first + count) <= blob.len(),
                r.len() == k,
                forall|j: int| 0 <= j < k ==> r[j] == word(blob@, first + j),
            decreases count - k,
        {
            let lo: u16 = blob[2 * (first + k)] as u16;
            let hi: u16 = blob[2 * (first + k) + 1] as u16;
            r.push(bits_to_signed(lo + 256 * hi));
            k += 1;
        }
        r
    }

    /// Reads a network from the bytes of its file: the feature weights, 256 for each of the
    /// 768 inputs, then the 256 feature biases, the 512 output weights and the output bias, each
    /// a signed number of 16 bits with the lower byte first. Bytes of another length are no network.
    pub fn from_bytes(blob: &[u8]) -> (r: Option<Network>)
        ensures
            r.is_some() == (blob@.len() == 2 * NUM_WORDS),
            r matches Some(net) ==> {
                &&& net.wf()
                &&& forall|k: int| 0 <= k < 768 * 256 ==> net.feature_weights[k] == word(blob@, k)
                &&& forall|k: int| 0 <= k < 256 ==> net.feature_biases[k] == word(blob@, 768 * 256 + k)
                &&& forall|k: int| 0 <= k < 512 ==> net.output_weights[k] == word(blob@, 768 * 256 + 256 + k)
                &&& net.output_bias == word(blob@, 197376int)
            },
    {
        if blob.len() != 2 * NUM_WORDS {
            return None;
        }
        let feature_weights = Self::read_words(blob, 0, 196608);
        let feature_biases = Self::read_words(blob, 196608, 256);
        let output_weights = Self::read_words(blob, 196864, 512);
        let last = Self::read_words(blob, 197376, 1);
        Some(Network { feature_weights, feature_biases, output_weights, output_bias: last[0] })
    }
}

} // verus!
