//! The binary archive encoder: 512-byte ustar headers with fixed-offset
//! fields, the checksum pass, the GNU long-name extension, content padding
//! and the end marker. Every emitted byte is pinned by a specification
//! function of the member's name, size and content alone, which is what
//! makes the archive reproducible.

use vstd::prelude::*;

use crate::TarError;
use crate::bytes::{
    copy_bytes, octal_seq, octal_vec, pow8, put, put_octal, splice, take_bytes, zero_vec, zeros,
};
use crate::digest::{digest_line, hex_encode, sha512_digest};

verus! {

/// The checksum field during summation: eight ASCII spaces.
pub open spec fn spaces8() -> Seq<u8> {
    seq![32u8, 32u8, 32u8, 32u8, 32u8, 32u8, 32u8, 32u8]
}

/// The ustar extension marker, `"ustar  "` and a NUL.
pub open spec fn magic_seq() -> Seq<u8> {
    seq![117u8, 115u8, 116u8, 97u8, 114u8, 32u8, 32u8, 0u8]
}

/// `"root"`: the normalized owner and group names.
pub open spec fn root_name_seq() -> Seq<u8> {
    seq![114u8, 111u8, 111u8, 116u8]
}

/// `"././@LongLink"`: the fixed name of a long-name record.
pub open spec fn longlink_name_seq() -> Seq<u8> {
    seq![46u8, 47u8, 46u8, 47u8, 64u8, 76u8, 111u8, 110u8, 103u8, 76u8, 105u8, 110u8, 107u8]
}

/// What the 100-byte name field holds: the name, truncated to 100 bytes if
/// longer (a preceding long-name record then carries the full name).
pub open spec fn trunc_name(name: Seq<u8>) -> Seq<u8> {
    if name.len() <= 100 {
        name
    } else {
        name.take(100)
    }
}

/// The full 100-byte name field: the (truncated) name, zero-filled.
pub open spec fn name_field(name: Seq<u8>) -> Seq<u8> {
    trunc_name(name) + zeros((100 - trunc_name(name).len()) as nat)
}

/// A 512-byte header before its checksum pass: every field at its fixed
/// offset, the checksum field as spaces, all unspecified bytes zero.
pub open spec fn header_pre(name: Seq<u8>, mode: nat, size: nat, typeflag: u8) -> Seq<u8> {
    let h = zeros(512);
    let h = splice(h, 0, trunc_name(name));
    let h = splice(h, 100, octal_seq(mode, 7).push(0u8));
    let h = splice(h, 108, octal_seq(0, 7).push(0u8));
    let h = splice(h, 116, octal_seq(0, 7).push(0u8));
    let h = splice(h, 124, octal_seq(size, 11).push(0u8));
    let h = splice(h, 148, spaces8());
    let h = splice(h, 156, seq![typeflag]);
    let h = splice(h, 257, magic_seq());
    let h = splice(h, 265, root_name_seq());
    splice(h, 297, root_name_seq())
}

/// The arithmetic sum of the unsigned byte values of a sequence.
pub open spec fn sum_bytes(s: Seq<u8>) -> int
    decreases s.len(),
{
    if s.len() == 0 {
        0
    } else {
        sum_bytes(s.drop_last()) + s.last()
    }
}

pub proof fn lemma_sum_bytes_bound(s: Seq<u8>)
    ensures
        0 <= sum_bytes(s) <= 255 * s.len(),
    decreases s.len(),
{
    if s.len() > 0 {
        lemma_sum_bytes_bound(s.drop_last());
    }
}

/// The checksum field: six octal digits, a NUL, a space.
pub open spec fn checksum_field(sum: nat) -> Seq<u8> {
    octal_seq(sum, 6) + seq![0u8, 32u8]
}

/// A header after its checksum pass: the sum of its bytes as they stand
/// (the checksum field being spaces) written into the checksum field.
pub open spec fn with_checksum(h: Seq<u8>) -> Seq<u8> {
    splice(h, 148, checksum_field(sum_bytes(h) as nat))
}

/// Zero bytes up to the next 512-byte boundary.
pub open spec fn pad_len(n: nat) -> nat {
    (((512 - n % 512) % 512)) as nat
}

/// A long-name record: a checksummed `'L'` header whose size field is the
/// full name's length and whose mode is the fixed 0755 of every long-name
/// record, then the name bytes, zero-padded to a block.
pub open spec fn longname_record(name: Seq<u8>) -> Seq<u8> {
    with_checksum(header_pre(longlink_name_seq(), 0o755 as nat, name.len(), 76u8)) + name + zeros(
        pad_len(name.len()),
    )
}

/// A member's header block(s): the checksummed regular header, preceded by
/// a long-name record exactly when the name exceeds 100 bytes.
pub open spec fn record_spec(name: Seq<u8>, mode: nat, size: nat, typeflag: u8) -> Seq<u8> {
    if name.len() > 100 {
        longname_record(name) + with_checksum(header_pre(name, mode, size, typeflag))
    } else {
        with_checksum(header_pre(name, mode, size, typeflag))
    }
}

/// A directory member: typeflag `'5'`, mode 0755, size zero.
pub open spec fn dir_record(name: Seq<u8>) -> Seq<u8> {
    record_spec(name, 0o755 as nat, 0, 53u8)
}

/// A file member's headers: typeflag `'0'`, mode 0644, the file's size.
pub open spec fn file_record_prefix(name: Seq<u8>, size: nat) -> Seq<u8> {
    record_spec(name, 0o644 as nat, size, 48u8)
}

/// A complete file member: headers, content, zero padding to a block.
pub open spec fn file_record(name: Seq<u8>, size: nat, content: Seq<u8>) -> Seq<u8> {
    file_record_prefix(name, size) + content + zeros(pad_len(content.len()))
}

/// The stream terminator: ten all-zero 512-byte blocks.
pub open spec fn end_marker_seq() -> Seq<u8> {
    zeros(5120)
}

/// Zero bytes needed after `n` content bytes to reach a block boundary.
pub fn pad_amount(n: usize) -> (p: usize)
    ensures
        p == pad_len(n as nat),
{
    (512 - n % 512) % 512
}

/// `"././@LongLink"` as bytes.
fn longlink_name_vec() -> (v: Vec<u8>)
    ensures
        v@ == longlink_name_seq(),
{
    let mut v: Vec<u8> = Vec::new();
    v.push(46u8);
    v.push(47u8);
    v.push(46u8);
    v.push(47u8);
    v.push(64u8);
    v.push(76u8);
    v.push(111u8);
    v.push(110u8);
    v.push(103u8);
    v.push(76u8);
    v.push(105u8);
    v.push(110u8);
    v.push(107u8);
    assert(v@ =~= longlink_name_seq());
    v
}

/// One fully checksummed 512-byte header.
fn build_header(name: &Vec<u8>, mode: u64, size: u64, typeflag: u8) -> (h: Vec<u8>)
    ensures
        h@ == with_checksum(header_pre(name@, mode as nat, size as nat, typeflag)),
{
    let mut h = zero_vec(512);
    let tn = if name.len() > 100 {
        take_bytes(name, 100)
    } else {
        copy_bytes(name)
    };
    assert(tn@ == trunc_name(name@));
    put(&mut h, 0, &tn);
    put_octal(&mut h, 100, mode, 7);
    put_octal(&mut h, 108, 0, 7);
    put_octal(&mut h, 116, 0, 7);
    put_octal(&mut h, 124, size, 11);
    let mut sp: Vec<u8> = Vec::new();
    sp.push(32u8);
    sp.push(32u8);
    sp.push(32u8);
    sp.push(32u8);
    sp.push(32u8);
    sp.push(32u8);
    sp.push(32u8);
    sp.push(32u8);
    assert(sp@ =~= spaces8());
    put(&mut h, 148, &sp);
    let ghost before_flag = h@;
    h.set(156, typeflag);
    assert(h@ =~= splice(before_flag, 156, seq![typeflag]));
    let mut mg: Vec<u8> = Vec::new();
    mg.push(117u8);
    mg.push(115u8);
    mg.push(116u8);
    mg.push(97u8);
    mg.push(114u8);
    mg.push(32u8);
    mg.push(32u8);
    mg.push(0u8);
    assert(mg@ =~= magic_seq());
    put(&mut h, 257, &mg);
    let mut rt: Vec<u8> = Vec::new();
    rt.push(114u8);
    rt.push(111u8);
    rt.push(111u8);
    rt.push(116u8);
    assert(rt@ =~= root_name_seq());
    put(&mut h, 265, &rt);
    put(&mut h, 297, &rt);
    assert(h@ == header_pre(name@, mode as nat, size as nat, typeflag));
    TarOutput::_tar_fix_header_checksum(&mut h);
    h
}

/// The header blocks of one member, long-name record included when owed.
fn build_record(name: &Vec<u8>, mode: u64, size: u64, typeflag: u8) -> (out: Vec<u8>)
    requires
        name@.len() < pow8(11),
    ensures
        out@ == record_spec(name@, mode as nat, size as nat, typeflag),
{
    if name.len() > 100 {
        let ll = longlink_name_vec();
        let mut out = build_header(&ll, 0o755, name.len() as u64, 76u8);
        let mut nm = copy_bytes(name);
        out.append(&mut nm);
        let pad = pad_amount(name.len());
        let mut z = zero_vec(pad);
        out.append(&mut z);
        let mut hdr = build_header(name, mode, size, typeflag);
        out.append(&mut hdr);
        assert(out@ =~= record_spec(name@, mode as nat, size as nat, typeflag));
        out
    } else {
        build_header(name, mode, size, typeflag)
    }
}

/// The archive writer: each function yields the exact bytes of one piece of
/// the stream, so the caller only has to forward them to the sink in order.
pub struct TarOutput {}

impl TarOutput {
    /// Sums the 512 header bytes as they stand and writes the sum into the
    /// checksum field as six octal digits, a NUL and a space.
    pub fn _tar_fix_header_checksum(header: &mut Vec<u8>)
        requires
            old(header)@.len() == 512,
        ensures
            final(header)@ == with_checksum(old(header)@),
    {
        let ghost orig = header@;
        let mut sum: u64 = 0;
        let mut i: usize = 0;
        while i < 512
            invariant
                header@ == orig,
                orig.len() == 512,
                i <= 512,
                sum == sum_bytes(orig.take(i as int)),
                sum <= 255 * i,
            decreases 512 - i,
        {
            assert(orig.take(i as int + 1).drop_last() =~= orig.take(i as int));
            sum = sum + header[i] as u64;
            i = i + 1;
        }
        assert(orig.take(512) =~= orig);
        proof {
            reveal_with_fuel(pow8, 8);
        }
        assert(sum < pow8(6));
        let mut f = octal_vec(sum, 6);
        f.push(0u8);
        f.push(32u8);
        assert(f@ =~= checksum_field(sum as nat));
        put(header, 148, &f);
    }

    /// The bytes of one directory member: its checksummed header(s). A
    /// trailing-slash name longer than 100 bytes gets a long-name record.
    pub fn tar_write_dir(tarname: &Vec<u8>) -> (out: Vec<u8>)
        requires
            tarname@.len() < pow8(11),
        ensures
            out@ == dir_record(tarname@),
    {
        build_record(tarname, 0o755, 0, 53u8)
    }

    /// The bytes of one complete file member, plus the digest listing line
    /// when one was asked for. `size` is the member's stated size; content
    /// of any other length is the fatal size mismatch.
    pub fn tar_write_file(
        tarname: &Vec<u8>,
        size: u64,
        content: &Vec<u8>,
        want_digest: bool,
    ) -> (r: Result<(Vec<u8>, Option<Vec<u8>>), TarError>)
        requires
            tarname@.len() < pow8(11),
            size < pow8(11),
        ensures
            size == content@.len() ==> (r matches Ok(p) && p.0@ == file_record(
                tarname@,
                size as nat,
                content@,
            ) && (want_digest ==> (p.1 matches Some(l) && l@ == digest_line(content@, tarname@)))
                && (!want_digest ==> p.1 is None)),
            size != content@.len() ==> r == Err::<(Vec<u8>, Option<Vec<u8>>), TarError>(
                TarError::SizeMismatch,
            ),
    {
        let (mut enc, mut out) = FileEncoder::new(tarname, size, want_digest);
        match enc.push_chunk(content.as_slice()) {
            Ok(_) => {},
            Err(e) => {
                return Err(e);
            },
        }
        let mut body = copy_bytes(content);
        out.append(&mut body);
        match enc.finish() {
            Ok((mut padv, line)) => {
                out.append(&mut padv);
                assert(out@ =~= file_record(tarname@, size as nat, content@));
                Ok((out, line))
            },
            Err(e) => Err(e),
        }
    }

    /// The stream terminator: ten all-zero blocks, as common tar tools
    /// write, of which a conformant reader needs only two.
    pub fn tar_end_marker() -> (out: Vec<u8>)
        ensures
            out@ == end_marker_seq(),
    {
        zero_vec(5120)
    }
}

/// Streams one file member: the headers are produced up front, content
/// arrives chunk by chunk (each chunk is forwarded to the sink and counted
/// toward the digest), and the final step checks the byte count against the
/// stated size and yields padding and the digest line.
pub struct FileEncoder {
    pub name: Vec<u8>,
    pub size: u64,
    pub written: u64,
    pub want_digest: bool,
    pub buf: Vec<u8>,
    pub fed: Ghost<Seq<u8>>,
}

impl FileEncoder {
    /// The bytes fed so far never exceed the stated size, and when a digest
    /// is wanted they are retained for it.
    pub open spec fn wf(self) -> bool {
        &&& self.written <= self.size
        &&& self.fed@.len() == self.written
        &&& (self.want_digest ==> self.buf@ == self.fed@)
    }

    /// Starts a file member: yields the encoder and its header bytes.
    pub fn new(tarname: &Vec<u8>, size: u64, want_digest: bool) -> (r: (FileEncoder, Vec<u8>))
        requires
            tarname@.len() < pow8(11),
            size < pow8(11),
        ensures
            r.1@ == file_record_prefix(tarname@, size as nat),
            r.0.wf(),
            r.0.fed@ == Seq::<u8>::empty(),
            r.0.size == size,
            r.0.written == 0,
            r.0.name@ == tarname@,
            r.0.want_digest == want_digest,
    {
        let header = build_record(tarname, 0o644, size, 48u8);
        let enc = FileEncoder {
            name: copy_bytes(tarname),
            size,
            written: 0,
            want_digest,
            buf: Vec::new(),
            fed: Ghost(Seq::empty()),
        };
        (enc, header)
    }

    /// Accounts one content chunk. A chunk that would push the byte count
    /// past the stated size is the fatal size mismatch; otherwise the chunk
    /// is exactly what the caller forwards to the archive sink next.
    pub fn push_chunk(&mut self, chunk: &[u8]) -> (r: Result<(), TarError>)
        requires
            old(self).wf(),
        ensures
            final(self).wf(),
            final(self).size == old(self).size,
            final(self).name@ == old(self).name@,
            final(self).want_digest == old(self).want_digest,
            old(self).written + chunk@.len() <= old(self).size ==> (r == Ok::<(), TarError>(())
                && final(self).fed@ == old(self).fed@ + chunk@ && final(self).written == old(
                self,
            ).written + chunk@.len()),
            old(self).written + chunk@.len() > old(self).size ==> (r == Err::<(), TarError>(
                TarError::SizeMismatch,
            ) && final(self).fed@ == old(self).fed@ && final(self).written == old(self).written),
    {
        let clen = chunk.len();
        if clen as u64 > self.size - self.written {
            return Err(TarError::SizeMismatch);
        }
        self.written = self.written + clen as u64;
        let ghost pre = *self;
        if self.want_digest {
            let ghost buf0 = self.buf@;
            let mut j: usize = 0;
            while j < clen
                invariant
                    clen == chunk@.len(),
                    j <= clen,
                    self.buf@ =~= buf0 + chunk@.take(j as int),
                    self.size == pre.size,
                    self.written == pre.written,
                    self.name@ == pre.name@,
                    self.want_digest == pre.want_digest,
                    self.fed == pre.fed,
                decreases clen - j,
            {
                self.buf.push(chunk[j]);
                j = j + 1;
                assert(self.buf@ =~= buf0 + chunk@.take(j as int));
            }
            assert(chunk@.take(clen as int) =~= chunk@);
        }
        self.fed = Ghost(self.fed@ + chunk@);
        Ok(())
    }

    /// Ends the member. Success is owed exactly when the bytes fed match
    /// the stated size; it yields the zero padding to the block boundary
    /// and, when asked for, the member's digest listing line.
    pub fn finish(self) -> (r: Result<(Vec<u8>, Option<Vec<u8>>), TarError>)
        requires
            self.wf(),
        ensures
            self.written == self.size ==> (r matches Ok(p) && p.0@ == zeros(
                pad_len(self.size as nat),
            ) && (self.want_digest ==> (p.1 matches Some(l) && l@ == digest_line(
                self.fed@,
                self.name@,
            ))) && (!self.want_digest ==> p.1 is None)),
            self.written != self.size ==> r == Err::<(Vec<u8>, Option<Vec<u8>>), TarError>(
                TarError::SizeMismatch,
            ),
    {
        if self.written != self.size {
            return Err(TarError::SizeMismatch);
        }
        let pad64 = (512 - self.size % 512) % 512;
        assert(pad64 < 512);
        let padv = zero_vec(pad64 as usize);
        if self.want_digest {
            let d = sha512_digest(&self.buf);
            let mut line = hex_encode(&d);
            line.push(32u8);
            line.push(32u8);
            let mut nm = copy_bytes(&self.name);
            line.append(&mut nm);
            line.push(10u8);
            assert(line@ =~= digest_line(self.fed@, self.name@));
            Ok((padv, Some(line)))
        } else {
            Ok((padv, None))
        }
    }
}

} // verus!
