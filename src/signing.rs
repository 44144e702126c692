//! What a pending signature must sign.
use vstd::prelude::*;
use crate::codec::read_bytes;
use crate::context::{PackageContext, SIGTYPE_CRATEBIN, SIGTYPE_WHOLE};
use crate::layout::HEADER_END;
use crate::round_trip::{sig_start, lemma_sigs_bytes, lemma_body_layout};
use crate::section::{PACKAGE_SECTION_SIZE, SIG_HEADER_SIZE};

verus! {

/// Where signature section `k` starts among the signature sections.
fn sig_prefix_len(sigs: &Vec<crate::context::SigRecord>, k: usize) -> (r: u128)
    requires
        k < sigs@.len(),
        sig_start(sigs@, k as int) <= u32::MAX,
    ensures
        r == sig_start(sigs@, k as int),
{
    let mut acc: u128 = 0;
    let mut j: usize = 0;
    assert(sigs@.take(0) =~= Seq::<crate::context::SigRecord>::empty());
    while j < k
        invariant
            j <= k < sigs@.len(),
            acc == sig_start(sigs@, j as int),
            sig_start(sigs@, k as int) <= u32::MAX,
        decreases k - j,
    {
        proof {
            lemma_sigs_bytes(sigs@, 0, j as int);
            crate::round_trip::lemma_sig_start_mono(sigs@, j as int + 1, k as int);
        }
        acc = acc + SIG_HEADER_SIZE as u128 + sigs[j].der.len() as u128;
        j += 1;
    }
    acc
}

impl PackageContext {
    /// The byte range of the encoded file that signature `k` covers: the archive
    /// section for `SIGTYPE_CRATEBIN`, everything before its own section for
    /// `SIGTYPE_WHOLE`.
    pub open spec fn signing_range(self, k: int) -> Option<(int, int)> {
        if 0 <= k < self.sigs@.len() && self.sigs@[k].sig_type == SIGTYPE_CRATEBIN {
            Some((self.crate_binary_offset(), self.crate_binary_offset() + self.crate_binary.bytes@.len()))
        } else if 0 <= k < self.sigs@.len() && self.sigs@[k].sig_type == SIGTYPE_WHOLE {
            Some((0, self.sigs_offset() + sig_start(self.sigs@, k)))
        } else {
            None
        }
    }

    /// The bytes that signature `k` must sign. They depend on the lengths of the
    /// signatures' DER, not on their content, so the record must already hold a
    /// placeholder of the final length; the signed DER then replaces it.
    pub fn bytes_to_sign(&self, k: usize) -> (r: Option<Vec<u8>>)
        ensures
            r is Some <==> self.fits() && self.signing_range(k as int) is Some,
            r matches Some(b) ==> b@ == self.encoding().subrange(
                self.signing_range(k as int)->Some_0.0,
                self.signing_range(k as int)->Some_0.1,
            ),
    {
        if k >= self.sigs.len() {
            return None;
        }
        let t = self.sigs[k].sig_type;
        if t != SIGTYPE_CRATEBIN && t != SIGTYPE_WHOLE {
            return None;
        }
        let out = match self.encode_to_crate_package() {
            Ok(v) => v,
            Err(_) => {
                return None;
            },
        };
        proof {
            lemma_body_layout(*self);
            if 0 <= k < self.sigs@.len() {
                lemma_sigs_bytes(self.sigs@, self.sigs_offset(), k as int);
            }
        }
        let (st, _refs) = self.build_strings();
        let m = self.sigs.len() as u128;
        let n = self.dep_infos.len() as u128;
        let ds_offset = HEADER_END as u128 + st.len() as u128 + 12 * (3 + m);
        let cb_offset = ds_offset + PACKAGE_SECTION_SIZE as u128 + 4 + 16 * n;
        let sigs_offset = cb_offset + self.crate_binary.bytes.len() as u128;
        let (start, end) = if t == SIGTYPE_CRATEBIN {
            (cb_offset, sigs_offset)
        } else {
            let acc = sig_prefix_len(&self.sigs, k);
            (0, sigs_offset + acc)
        };
        let r = read_bytes(out.as_slice(), start as usize, (end - start) as usize);
        proof {
            assert(out@.subrange(start as int, end as int) =~= self.encoding().subrange(start as int, end as int));
        }
        r
    }
}

} // verus!
