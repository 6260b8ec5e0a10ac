//! The encoder configuration and its builder-style setters.

use vstd::prelude::*;
use vstd::string::StrSliceExecFns;
use vstd::string::StringSliceAdditionalSpecFns;
use crate::bits::is_bits;
use crate::bits::spec_bytes_to_bits;
use crate::bits::spec_padded_codewords;
use crate::bits::zero_seq;
use crate::encode::lemma_alnum_payload_props;
use crate::encode::lemma_byte_payload_props;
use crate::encode::lemma_kanji_payload_props;
use crate::encode::lemma_numeric_payload_props;
use crate::encode::kanji_validate;
use crate::encode::shift_jis_encode;
use crate::encode::shift_jis_of;
use crate::encode::spec_alnum_payload;
use crate::encode::spec_byte_payload;
use crate::encode::spec_kanji_payload;
use crate::encode::spec_mode_header;
use crate::encode::spec_mode_indicator;
use crate::encode::spec_numeric_payload;
use crate::final_structure::spec_final_sequence;
use crate::matrix::Matrix;
use crate::matrix::spec_best_mask;
use crate::matrix::spec_function_grid;
use crate::matrix::spec_place_data;
use crate::matrix::spec_symbol_grid;
use crate::mode::Mode;
use crate::mode::spec_mode_index;
use crate::mode::spec_mode_supports_all;
use crate::qrcode_info::lemma_table_bounds;
use crate::qrcode_info::spec_ec_per_block;
use crate::qrcode_info::spec_num_blocks;
use crate::qrcode_info::spec_capacity_bits;
use crate::qrcode_info::spec_indicator_bits;
use crate::qrcode_info::spec_remainder_bits;
use crate::qrcode_info::spec_total_codewords;
use crate::resolve::lemma_fits_len_bound;
use crate::resolve::lemma_no_fit_when_long;
use crate::resolve::spec_detect_mode;
use crate::resolve::spec_payload_bits;
use crate::resolve::spec_version_fits;
use crate::resolve::supports_all;

verus! {

/// Failure of an `encode` call.
#[derive(Clone, Copy, PartialEq, Eq, Structural, Debug)]
pub enum QrError {
    /// No version up to 40 holds the payload at the requested level.
    CapacityExceeded,
    /// The payload cannot be represented in the selected mode.
    UnsupportedCharacter,
    /// A caller-supplied version lies outside 1..=40.
    InvalidParameter,
}

/// QR encoder configuration and working buffer.  `mode` is `None` and
/// `version` is 0 until set by a caller or resolved from the payload.
pub struct Encoder {
    /// Working buffer: bits during bitstream construction, codewords
    /// after packing, bits again after interleaving.
    pub data: Vec<u8>,
    /// Error-correction level index: 0 = L, 1 = M, 2 = Q, 3 = H.
    pub ec_level: usize,
    /// Encoding mode, once chosen or detected.
    pub mode: Option<Mode>,
    /// Version 1..=40; 0 while unresolved.  A caller-supplied value is
    /// only range-checked when `encode` runs.
    pub version: usize,
    /// Index of the mask committed by the last successful `encode`.
    pub mask: usize,
}

impl Encoder {
    /// A fresh encoder: level L, mode and version left to resolution.
    pub fn new() -> (r: Encoder)
        ensures
            r.data@ =~= Seq::<u8>::empty(),
            r.ec_level == 0,
            r.mode is None,
            r.version == 0,
            r.mask == 0,
    {
        Encoder { data: Vec::new(), ec_level: 0, mode: None, version: 0, mask: 0 }
    }

    /// Selects the encoding mode by name.
    pub fn mode(self, mode: &str) -> (r: Encoder)
        requires
            mode@ == "Numeric"@ || mode@ == "Alphanumeric"@ || mode@ == "Byte"@ || mode@
                == "Kanji"@,
        ensures
            r.mode == Some(
                if mode@ == "Numeric"@ {
                    Mode::Numeric
                } else if mode@ == "Alphanumeric"@ {
                    Mode::Alphanumeric
                } else if mode@ == "Byte"@ {
                    Mode::Byte
                } else {
                    Mode::Kanji
                },
            ),
            r.data == self.data,
            r.ec_level == self.ec_level,
            r.version == self.version,
    {
        proof {
            reveal_strlit("Numeric");
            reveal_strlit("Alphanumeric");
            reveal_strlit("Byte");
            reveal_strlit("Kanji");
        }
        let c = mode.get_char(0);
        let m = if c == 'N' {
            Mode::Numeric
        } else if c == 'A' {
            Mode::Alphanumeric
        } else if c == 'B' {
            Mode::Byte
        } else {
            Mode::Kanji
        };
        Encoder { mode: Some(m), ..self }
    }

    /// Selects the symbol version (1..=40); the range is checked when
    /// `encode` runs.
    pub fn version(self, version: usize) -> (r: Encoder)
        ensures
            r.version == version,
            r.data == self.data,
            r.ec_level == self.ec_level,
            r.mode == self.mode,
    {
        Encoder { version, ..self }
    }

    /// Selects the error-correction level by letter.
    pub fn ec_level(self, ec_level: &str) -> (r: Encoder)
        requires
            ec_level@ == "L"@ || ec_level@ == "M"@ || ec_level@ == "Q"@ || ec_level@ == "H"@,
        ensures
            r.ec_level == (if ec_level@ == "L"@ {
                0int
            } else if ec_level@ == "M"@ {
                1int
            } else if ec_level@ == "Q"@ {
                2int
            } else {
                3int
            }),
            r.ec_level < 4,
            r.data == self.data,
            r.mode == self.mode,
            r.version == self.version,
    {
        proof {
            reveal_strlit("L");
            reveal_strlit("M");
            reveal_strlit("Q");
            reveal_strlit("H");
        }
        let c = ec_level.get_char(0);
        let e: usize = if c == 'L' {
            0
        } else if c == 'M' {
            1
        } else if c == 'Q' {
            2
        } else {
            3
        };
        Encoder { ec_level: e, ..self }
    }
}

/// Character count that enters the count indicator and the version
/// formula: characters for Numeric and Alphanumeric, payload bytes for
/// Byte, double-byte characters for Kanji.
pub open spec fn spec_payload_len(m: Mode, text: Seq<char>, bytes: Seq<u8>, sjis: Seq<u8>) -> int {
    match m {
        Mode::Numeric => text.len() as int,
        Mode::Alphanumeric => text.len() as int,
        Mode::Byte => bytes.len() as int,
        Mode::Kanji => sjis.len() as int / 2,
    }
}

/// The payload bit sequence of a mode.
pub open spec fn spec_payload_seq(m: Mode, text: Seq<char>, bytes: Seq<u8>, sjis: Seq<u8>) -> Seq<
    u8,
> {
    match m {
        Mode::Numeric => spec_numeric_payload(text),
        Mode::Alphanumeric => spec_alnum_payload(text),
        Mode::Byte => spec_byte_payload(bytes),
        Mode::Kanji => spec_kanji_payload(sjis)->0,
    }
}

/// Whether the payload cannot be represented in the mode: a character
/// outside the mode's set, or for Kanji a text whose Shift-JIS bytes
/// do not form representable double-byte characters.  Byte mode
/// represents everything.
pub open spec fn spec_mode_rejects(m: Mode, text: Seq<char>) -> bool {
    match m {
        Mode::Numeric => !spec_mode_supports_all(Mode::Numeric, text),
        Mode::Alphanumeric => !spec_mode_supports_all(Mode::Alphanumeric, text),
        Mode::Byte => false,
        Mode::Kanji => !(spec_kanji_payload(shift_jis_of(text)) is Some),
    }
}

/// The final bit stream of the symbol: mode header and payload bits,
/// packed and padded to the data codewords, interleaved with the
/// error-correction codewords, unpacked to bits, remainder bits
/// appended.
pub open spec fn spec_symbol_bits(
    m: Mode,
    text: Seq<char>,
    bytes: Seq<u8>,
    sjis: Seq<u8>,
    v: int,
    e: int,
) -> Seq<u8> {
    let len = spec_payload_len(m, text, bytes, sjis);
    let cci = spec_indicator_bits(v, spec_mode_index(m));
    let stream = spec_mode_header(m, len, cci as nat) + spec_payload_seq(m, text, bytes, sjis);
    let cw = spec_padded_codewords(stream, v, e);
    let inter = spec_final_sequence(cw, v, e);
    spec_bytes_to_bits(inter) + zero_seq(spec_remainder_bits(v) as nat)
}

impl Encoder {
    /// Runs the whole pipeline: resolves mode and version, builds the
    /// mode bit stream, packs and pads it to codewords, interleaves
    /// the blocks with their error-correction codewords, and returns
    /// the finished, masked symbol matrix.
    #[verifier::rlimit(100)]
    pub fn encode(&mut self, message: &str) -> (r: Result<Matrix, QrError>)
        requires
            old(self).ec_level < 4,
            message@.len() <= 0xff_ffff,
        ensures
            final(self).ec_level == old(self).ec_level,
            ({
                let m = if old(self).mode is Some {
                    old(self).mode->0
                } else {
                    spec_detect_mode(message@)
                };
                let e = old(self).ec_level as int;
                let len = spec_payload_len(
                    m,
                    message@,
                    message.spec_bytes(),
                    shift_jis_of(message@),
                );
                let param_ok = old(self).version == 0 || 1 <= old(self).version <= 40;
                match r {
                    Ok(matrix) => {
                        let v = final(self).version as int;
                        &&& param_ok
                        &&& final(self).mode == Some(m)
                        &&& !spec_mode_rejects(m, message@)
                        &&& 1 <= v <= 40
                        &&& spec_version_fits(m, e, len, v)
                        &&& (old(self).version != 0 ==> v == old(self).version)
                        &&& (old(self).version == 0 ==> forall|w: int|
                            1 <= w < v ==> !spec_version_fits(m, e, len, w))
                        &&& final(self).data@ == spec_symbol_bits(
                            m,
                            message@,
                            message.spec_bytes(),
                            shift_jis_of(message@),
                            v,
                            e,
                        )
                        &&& matrix@ == spec_symbol_grid(final(self).data@, v)
                        &&& final(self).mask < 8
                        &&& final(self).mask as int == spec_best_mask(
                            spec_place_data(spec_function_grid(v), final(self).data@),
                        )
                    },
                    Err(err) => {
                        &&& final(self).data == old(self).data
                        &&& final(self).version == old(self).version
                        &&& (err == QrError::InvalidParameter <==> !param_ok)
                        &&& (err == QrError::UnsupportedCharacter <==> param_ok
                            && spec_mode_rejects(m, message@))
                        &&& (err == QrError::CapacityExceeded <==> param_ok && !spec_mode_rejects(
                            m,
                            message@,
                        ) && (if old(self).version != 0 {
                            !spec_version_fits(m, e, len, old(self).version as int)
                        } else {
                            forall|w: int| 1 <= w <= 40 ==> !spec_version_fits(m, e, len, w)
                        }))
                    },
                }
            }),
    {
        let ghost e = old(self).ec_level as int;
        if !(self.version == 0 || (1 <= self.version && self.version <= 40)) {
            return Err(QrError::InvalidParameter);
        }
        self.mode_detect(message);
        let m = self.mode.unwrap();
        let ghost sjis_spec = shift_jis_of(message@);
        let ghost text = message@;
        let ghost bytes_spec = message.spec_bytes();
        let ghost len_spec = spec_payload_len(m, text, bytes_spec, sjis_spec);
        let mut sjis: Vec<u8> = Vec::new();
        let len_usize: usize;
        match m {
            Mode::Numeric => {
                if !supports_all(Mode::Numeric, message) {
                    return Err(QrError::UnsupportedCharacter);
                }
                len_usize = message.unicode_len();
            },
            Mode::Alphanumeric => {
                if !supports_all(Mode::Alphanumeric, message) {
                    return Err(QrError::UnsupportedCharacter);
                }
                len_usize = message.unicode_len();
            },
            Mode::Byte => {
                len_usize = message.as_bytes().len();
            },
            Mode::Kanji => {
                sjis = shift_jis_encode(message);
                if !kanji_validate(&sjis) {
                    return Err(QrError::UnsupportedCharacter);
                }
                len_usize = sjis.len() / 2;
            },
        }
        proof {
            assert(len_usize as int == len_spec);
            assert(!spec_mode_rejects(m, text));
        }
        if len_usize > 7882 {
            proof {
                lemma_no_fit_when_long(m, e, len_spec);
            }
            return Err(QrError::CapacityExceeded);
        }
        let bits_count = match self.version_detect(len_usize as u16) {
            Ok(b) => b,
            Err(err) => {
                return Err(err);
            },
        };
        let ghost v = self.version as int;
        proof {
            lemma_fits_len_bound(m, e, len_spec, v);
        }
        match m {
            Mode::Numeric => {
                self.numeric_encode(bits_count, message);
            },
            Mode::Alphanumeric => {
                self.alphanumeric_encode(bits_count, message);
            },
            Mode::Byte => {
                self.byte_encode(bits_count, message);
            },
            Mode::Kanji => {
                self.kanji_encode(bits_count, &sjis);
            },
        }
        let ghost cci = spec_indicator_bits(v, spec_mode_index(m));
        let ghost stream = spec_mode_header(m, len_spec, cci as nat) + spec_payload_seq(
            m,
            text,
            bytes_spec,
            sjis_spec,
        );
        proof {
            assert(self.data@ == stream);
            let payload = spec_payload_seq(m, text, bytes_spec, sjis_spec);
            match m {
                Mode::Numeric => {
                    lemma_numeric_payload_props(text);
                },
                Mode::Alphanumeric => {
                    lemma_alnum_payload_props(text);
                },
                Mode::Byte => {
                    lemma_byte_payload_props(bytes_spec);
                },
                Mode::Kanji => {
                    lemma_kanji_payload_props(sjis_spec);
                },
            }
            assert(payload.len() == spec_payload_bits(m, len_spec));
            crate::bits::lemma_bits_of_is_bits(len_spec, cci as nat);
            assert(is_bits(spec_mode_indicator(m))) by {
                let ind = spec_mode_indicator(m);
                assert(ind.len() == 4 && ind[0] <= 1 && ind[1] <= 1 && ind[2] <= 1 && ind[3]
                    <= 1);
            }
            assert(is_bits(stream)) by {
                let header = spec_mode_header(m, len_spec, cci as nat);
                assert forall|i: int| 0 <= i < stream.len() implies stream[i] <= 1 by {
                    if i < 4 {
                        assert(stream[i] == spec_mode_indicator(m)[i]);
                    } else if i < header.len() {
                        assert(stream[i] == crate::bits::bits_of(len_spec, cci as nat)[i - 4]);
                    } else {
                        assert(stream[i] == payload[i - header.len()]);
                    }
                }
            }
            assert(stream.len() == 4 + cci + spec_payload_bits(m, len_spec));
            assert(stream.len() <= spec_capacity_bits(v, e));
        }
        self.decimal_data();
        self.final_structure();
        proof {
            lemma_table_bounds(v, e);
            assert(spec_num_blocks(v, e) * spec_ec_per_block(v, e) <= 2430) by (nonlinear_arith)
                requires
                    1 <= spec_num_blocks(v, e) <= 81,
                    7 <= spec_ec_per_block(v, e) <= 30,
            ;
            crate::final_structure::lemma_block_totals(v, e);
            assert(spec_total_codewords(v) <= 5386);
        }
        self.binary_data();
        proof {
            assert(self.data@ == spec_symbol_bits(m, text, bytes_spec, sjis_spec, v, e));
        }
        let (matrix, mask) = Matrix::build(&self.data, self.version);
        self.mask = mask as usize;
        Ok(matrix)
    }
}

} // verus!
