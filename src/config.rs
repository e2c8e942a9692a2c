use vstd::prelude::*;

verus! {

/// Nucleotide `A` as a byte.
pub const A: u8 = 65;

/// Nucleotide `C` as a byte.
pub const C: u8 = 67;

/// Nucleotide `G` as a byte.
pub const G: u8 = 71;

/// Nucleotide `T` as a byte.
pub const T: u8 = 84;

/// Parameters of the read-pair classifier.
pub struct Config {
    /// Accepted barcodes of the first read.
    pub barcodes1: Vec<Vec<u8>>,
    /// Accepted barcodes of the second read.
    pub barcodes2: Vec<Vec<u8>>,
    /// Constant anchor motif searched for in the second read.
    pub anchor: Vec<u8>,
    /// 1-based inclusive window `(lo, hi)` of the second read in which the anchor is searched.
    pub window: (usize, usize),
    /// Length of the variable region that follows the anchor.
    pub rbs_len: usize,
    /// Length of each barcode.
    pub barcode_len: usize,
    /// Largest tolerated number of `N` calls over both reads.
    pub max_n: usize,
    /// Discriminator motif of the non-flipped orientation.
    pub non_flipped: Vec<u8>,
    /// Discriminator motif of the flipped orientation.
    pub flipped: Vec<u8>,
    /// Distance between the first barcode's end and the discriminator's start.
    pub disc_offset: usize,
}

/// Mathematical model of a [`Config`].
pub struct ConfigView {
    pub barcodes1: Seq<Seq<u8>>,
    pub barcodes2: Seq<Seq<u8>>,
    pub anchor: Seq<u8>,
    pub window: (nat, nat),
    pub rbs_len: nat,
    pub barcode_len: nat,
    pub max_n: nat,
    pub non_flipped: Seq<u8>,
    pub flipped: Seq<u8>,
    pub disc_offset: nat,
}

impl View for Config {
    type V = ConfigView;

    open spec fn view(&self) -> ConfigView {
        ConfigView {
            barcodes1: self.barcodes1@.map_values(|b: Vec<u8>| b@),
            barcodes2: self.barcodes2@.map_values(|b: Vec<u8>| b@),
            anchor: self.anchor@,
            window: (self.window.0 as nat, self.window.1 as nat),
            rbs_len: self.rbs_len as nat,
            barcode_len: self.barcode_len as nat,
            max_n: self.max_n as nat,
            non_flipped: self.non_flipped@,
            flipped: self.flipped@,
            disc_offset: self.disc_offset as nat,
        }
    }
}

impl ConfigView {
    /// The window is 1-based and the fixed lengths can be added in machine words.
    pub open spec fn wf(self) -> bool {
        &&& self.window.0 >= 1
        &&& self.anchor.len() + self.rbs_len <= usize::MAX
        &&& self.barcode_len + self.rbs_len <= usize::MAX
        &&& self.disc_offset + self.barcode_len <= usize::MAX
    }
}

impl Config {
    pub open spec fn wf(&self) -> bool {
        self@.wf()
    }

    /// The parameters of the uASPIre assay.
    pub fn uaspire() -> (c: Config)
        ensures
            c.wf(),
            c.window == (7usize, 24usize),
            c.barcode_len == 6,
            c.rbs_len == 17,
            c.max_n == 6,
            c.disc_offset == 6,
            c.barcodes1@.len() == 6,
            c.barcodes2@.len() == 6,
            c.anchor@ == seq![G, A, G, C, T, C, G, C, A, T],
            c.non_flipped@ == seq![G, G, G, T, T, T, G, T, A, C, C, G, T, A, C, A, C],
            c.flipped@ == seq![G, C, C, C, G, G, A, T, G, A, T, C, C, T, G, A, C],
            c@.barcodes1 == c@.barcodes2,
            c@.barcodes1 == seq![
                seq![A, T, C, A, C, G],
                seq![C, G, A, T, G, T],
                seq![C, T, T, G, T, A],
                seq![G, C, C, A, A, T],
                seq![A, C, A, G, T, G],
                seq![A, C, T, T, G, A],
            ],
    {
        let barcodes1 = vec![
            vec![A, T, C, A, C, G],
            vec![C, G, A, T, G, T],
            vec![C, T, T, G, T, A],
            vec![G, C, C, A, A, T],
            vec![A, C, A, G, T, G],
            vec![A, C, T, T, G, A],
        ];
        let barcodes2 = vec![
            vec![A, T, C, A, C, G],
            vec![C, G, A, T, G, T],
            vec![C, T, T, G, T, A],
            vec![G, C, C, A, A, T],
            vec![A, C, A, G, T, G],
            vec![A, C, T, T, G, A],
        ];
        let anchor = vec![G, A, G, C, T, C, G, C, A, T];
        let non_flipped = vec![
            G, G, G, T, T, T, G, T, A, C, C, G, T, A,
            C, A, C,
        ];
        let flipped = vec![
            G, C, C, C, G, G, A, T, G, A, T, C, C, T,
            G, A, C,
        ];
        assert(barcodes1@.map_values(|b: Vec<u8>| b@) =~= seq![
            seq![A, T, C, A, C, G],
            seq![C, G, A, T, G, T],
            seq![C, T, T, G, T, A],
            seq![G, C, C, A, A, T],
            seq![A, C, A, G, T, G],
            seq![A, C, T, T, G, A],
        ]);
        assert(barcodes2@.map_values(|b: Vec<u8>| b@) =~= barcodes1@.map_values(|b: Vec<u8>| b@));
        Config {
            barcodes1,
            barcodes2,
            anchor,
            window: (7, 24),
            rbs_len: 17,
            barcode_len: 6,
            max_n: 6,
            non_flipped,
            flipped,
            disc_offset: 6,
        }
    }
}

} // verus!
