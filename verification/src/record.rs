//! Archive records and the per-file download descriptors expanded from them.
//!
//! One archive record may describe several physical files: its checksum,
//! primary-URL and secondary-URL fields are `;`-delimited lists, one entry per
//! file. Expansion zips those lists positionally into one [`DownloadInfo`]
//! per file.

use crate::accession::AccessionCodes;
use vstd::prelude::*;

verus! {

/// One row returned by the record archive's tabular query.
#[derive(Debug, Clone)]
pub struct EnaRecord {
    /// The experiment accession the row belongs to.
    pub experiment_accession: String,
    /// The run accession the row belongs to.
    pub run_accession: String,
    /// `;`-delimited checksums, one per physical file.
    pub fastq_md5: String,
    /// `;`-delimited primary-transport URLs, one per physical file.
    pub fastq_ftp: String,
    /// `;`-delimited secondary-transport URLs, one per physical file.
    pub fastq_aspera: String,
}

/// The mathematical value of an [`EnaRecord`]: each field as a character
/// sequence.
pub struct EnaRecordV {
    /// The experiment accession the row belongs to.
    pub experiment_accession: Seq<char>,
    /// The run accession the row belongs to.
    pub run_accession: Seq<char>,
    /// `;`-delimited checksums, one per physical file.
    pub fastq_md5: Seq<char>,
    /// `;`-delimited primary-transport URLs, one per physical file.
    pub fastq_ftp: Seq<char>,
    /// `;`-delimited secondary-transport URLs, one per physical file.
    pub fastq_aspera: Seq<char>,
}

impl View for EnaRecord {
    type V = EnaRecordV;

    open spec fn view(&self) -> EnaRecordV {
        EnaRecordV {
            experiment_accession: self.experiment_accession@,
            run_accession: self.run_accession@,
            fastq_md5: self.fastq_md5@,
            fastq_ftp: self.fastq_ftp@,
            fastq_aspera: self.fastq_aspera@,
        }
    }
}

/// One physical file to download.
#[derive(Debug)]
pub struct DownloadInfo {
    /// The caller-supplied display name, if one was given.
    pub name: Option<String>,
    /// The accession code as it stood in the input.
    pub orig_acc: String,
    /// The run accession the file belongs to.
    pub run_acc: String,
    /// The primary-transport URL.
    pub http_url: String,
    /// The file's checksum, verbatim from the record.
    pub md5: String,
    /// The secondary-transport URL.
    pub ascp_url: String,
    /// The output path derived at construction time.
    pub download_path: Option<String>,
}

/// The mathematical value of a [`DownloadInfo`].
pub struct DownloadInfoV {
    /// The caller-supplied display name, if one was given.
    pub name: Option<Seq<char>>,
    /// The accession code as it stood in the input.
    pub orig_acc: Seq<char>,
    /// The run accession the file belongs to.
    pub run_acc: Seq<char>,
    /// The primary-transport URL.
    pub http_url: Seq<char>,
    /// The file's checksum, verbatim from the record.
    pub md5: Seq<char>,
    /// The secondary-transport URL.
    pub ascp_url: Seq<char>,
    /// The output path derived at construction time.
    pub download_path: Option<Seq<char>>,
}

impl View for DownloadInfo {
    type V = DownloadInfoV;

    open spec fn view(&self) -> DownloadInfoV {
        DownloadInfoV {
            name: self.name.deep_view(),
            orig_acc: self.orig_acc@,
            run_acc: self.run_acc@,
            http_url: self.http_url@,
            md5: self.md5@,
            ascp_url: self.ascp_url@,
            download_path: self.download_path.deep_view(),
        }
    }
}

impl Clone for DownloadInfo {
    /// A clone carries the same value.
    fn clone(&self) -> (r: Self)
        ensures
            r@ == self@,
    {
        DownloadInfo {
            name: match &self.name {
                Some(n) => Some(n.clone()),
                None => None,
            },
            orig_acc: self.orig_acc.clone(),
            run_acc: self.run_acc.clone(),
            http_url: self.http_url.clone(),
            md5: self.md5.clone(),
            ascp_url: self.ascp_url.clone(),
            download_path: match &self.download_path {
                Some(p) => Some(p.clone()),
                None => None,
            },
        }
    }
}

/// The part of `s` after its last occurrence of `c`; all of `s` when `c` does
/// not occur.
pub open spec fn after_last(s: Seq<char>, c: char) -> Seq<char>
    decreases s.len(),
{
    if s.len() == 0 {
        s
    } else if s.last() == c {
        Seq::empty()
    } else {
        after_last(s.drop_last(), c).push(s.last())
    }
}

/// The output path of a file: `name/basename(url)` when a display name was
/// supplied, else `orig/run/basename(url)`, where `basename` is the part of
/// the URL after its last `/`.
pub open spec fn spec_download_path(
    name: Option<Seq<char>>,
    orig_acc: Seq<char>,
    run_acc: Seq<char>,
    http_url: Seq<char>,
) -> Seq<char> {
    match name {
        Some(n) => n + "/"@ + after_last(http_url, '/'),
        None => orig_acc + "/"@ + run_acc + "/"@ + after_last(http_url, '/'),
    }
}

/// The index at which the part of `s` after its last `/` starts.
fn basename_start(s: &str) -> (k: usize)
    ensures
        k <= s@.len(),
        s@.subrange(k as int, s@.len() as int) == after_last(s@, '/'),
{
    let n = s.unicode_len();
    let mut j = n;
    proof {
        assert(s@.subrange(n as int, n as int) =~= Seq::<char>::empty());
        assert(s@.take(n as int) =~= s@);
    }
    while j > 0
        invariant
            j <= n,
            n == s@.len(),
            after_last(s@, '/') == after_last(s@.take(j as int), '/') + s@.subrange(
                j as int,
                n as int,
            ),
        decreases j,
    {
        let c = s.get_char(j - 1);
        let ghost pre = s@.take(j as int);
        proof {
            assert(pre.len() == j);
            assert(pre.last() == s@[j - 1]);
            assert(pre.drop_last() =~= s@.take(j - 1));
        }
        if c == '/' {
            proof {
                assert(after_last(pre, '/') =~= Seq::<char>::empty());
                assert(after_last(s@, '/') =~= s@.subrange(j as int, n as int));
            }
            return j;
        }
        proof {
            assert(after_last(pre, '/') == after_last(s@.take(j - 1), '/').push(s@[j - 1]));
            assert(after_last(s@.take(j - 1), '/').push(s@[j - 1]) + s@.subrange(j as int, n as int)
                =~= after_last(s@.take(j - 1), '/') + s@.subrange(j - 1, n as int));
        }
        j = j - 1;
    }
    proof {
        assert(s@.take(0) =~= Seq::<char>::empty());
        assert(after_last(Seq::<char>::empty(), '/') + s@.subrange(0, n as int) =~= s@.subrange(
            0,
            n as int,
        ));
        assert(s@.subrange(0, n as int) =~= s@);
    }
    0
}

impl DownloadInfo {
    /// The output path the descriptor was constructed with.
    pub fn download_path(&self) -> (r: String)
        ensures
            r@ == spec_download_path(self@.name, self.orig_acc@, self.run_acc@, self.http_url@),
    {
        let n = self.http_url.as_str().unicode_len();
        let k = basename_start(self.http_url.as_str());
        let base = self.http_url.as_str().substring_char(k, n);
        match &self.name {
            Some(name) => {
                let mut out = name.clone();
                out.append("/");
                out.append(base);
                out
            },
            None => {
                let mut out = self.orig_acc.clone();
                out.append("/");
                out.append(self.run_acc.as_str());
                out.append("/");
                out.append(base);
                out
            },
        }
    }

    /// Builds one descriptor; the output path is derived here, once, from the
    /// name, the accessions and the primary URL.
    pub fn new(
        name: Option<String>,
        orig_acc: String,
        run_acc: String,
        http_url: String,
        md5: String,
        ascp_url: String,
    ) -> (r: Self)
        ensures
            r@ == (DownloadInfoV {
                name: name.deep_view(),
                orig_acc: orig_acc@,
                run_acc: run_acc@,
                http_url: http_url@,
                md5: md5@,
                ascp_url: ascp_url@,
                download_path: Some(
                    spec_download_path(name.deep_view(), orig_acc@, run_acc@, http_url@),
                ),
            }),
    {
        let mut info = DownloadInfo {
            name,
            orig_acc,
            run_acc,
            http_url,
            md5,
            ascp_url,
            download_path: None,
        };
        let path = info.download_path();
        info.download_path = Some(path);
        info
    }

    /// The download-tool stanza for this file: the URL, a checksum directive,
    /// an integrity-check directive and the output path, each directive on an
    /// indented line of its own.
    pub fn to_aria2(&self) -> (r: String)
        ensures
            r@ == spec_aria2(self@),
    {
        let mut out = self.http_url.clone();
        out.append("\n checksum=md5=");
        out.append(self.md5.as_str());
        out.append("\n check-integrity=true\n out=");
        let path = self.download_path();
        out.append(path.as_str());
        out.append("\n");
        proof {
            assert(out@ =~= spec_aria2(self@));
        }
        out
    }
}

/// The text of the download-tool stanza for one descriptor. The output path
/// is derived afresh from the descriptor's fields.
pub open spec fn spec_aria2(d: DownloadInfoV) -> Seq<char> {
    d.http_url + "\n checksum=md5="@ + d.md5 + "\n check-integrity=true\n out="@
        + spec_download_path(d.name, d.orig_acc, d.run_acc, d.http_url) + "\n"@
}

/// The pieces of `s` from position `i` on when split on `sep`, with `cur` the
/// piece read so far. A separator always ends a piece, so pieces may be empty
/// and there is always at least one.
pub open spec fn split_acc(s: Seq<char>, sep: char, i: int, cur: Seq<char>) -> Seq<Seq<char>>
    decreases s.len() - i,
{
    if i < 0 || i >= s.len() {
        seq![cur]
    } else if s[i] == sep {
        seq![cur] + split_acc(s, sep, i + 1, Seq::empty())
    } else {
        split_acc(s, sep, i + 1, cur.push(s[i]))
    }
}

/// The pieces of `s` split on `sep`, in order, empty pieces kept.
pub open spec fn split_on(s: Seq<char>, sep: char) -> Seq<Seq<char>> {
    split_acc(s, sep, 0, Seq::empty())
}

/// Splits `s` on every occurrence of `sep`, keeping empty pieces.
pub fn split_str(s: &str, sep: char) -> (r: Vec<String>)
    ensures
        r@.map_values(|t: String| t@) == split_on(s@, sep),
        r@.len() >= 1,
{
    let n = s.unicode_len();
    let mut pieces: Vec<String> = Vec::new();
    let mut start: usize = 0;
    let mut i: usize = 0;
    proof {
        assert(pieces@.map_values(|t: String| t@) =~= Seq::<Seq<char>>::empty());
        assert(s@.subrange(0, 0) =~= Seq::<char>::empty());
    }
    while i < n
        invariant
            n == s@.len(),
            i <= n,
            start <= i,
            pieces@.map_values(|t: String| t@) + split_acc(
                s@,
                sep,
                i as int,
                s@.subrange(start as int, i as int),
            ) == split_on(s@, sep),
        decreases n - i,
    {
        let ghost cur = s@.subrange(start as int, i as int);
        let c = s.get_char(i);
        if c == sep {
            let piece = s.substring_char(start, i).to_owned();
            let ghost old_pieces = pieces@;
            pieces.push(piece);
            proof {
                assert(pieces@.map_values(|t: String| t@) =~= old_pieces.map_values(|t: String| t@)
                    + seq![cur]);
            }
            start = i + 1;
            proof {
                assert(s@.subrange(start as int, (i + 1) as int) =~= Seq::<char>::empty());
            }
        } else {
            proof {
                assert(s@.subrange(start as int, (i + 1) as int) =~= cur.push(s@[i as int]));
            }
        }
        i = i + 1;
    }
    let piece = s.substring_char(start, n).to_owned();
    let ghost old_pieces = pieces@;
    let ghost cur = s@.subrange(start as int, n as int);
    pieces.push(piece);
    proof {
        assert(pieces@.map_values(|t: String| t@) =~= old_pieces.map_values(|t: String| t@) + seq![
            cur,
        ]);
    }
    pieces
}

/// The least of three lengths.
pub open spec fn min3(a: int, b: int, c: int) -> int {
    if a <= b && a <= c {
        a
    } else if b <= c {
        b
    } else {
        c
    }
}

/// The descriptor built for one aligned (checksum, primary URL, secondary
/// URL) triple: the fixed scheme prefix goes in front of the primary URL, the
/// fixed credential prefix in front of the secondary one.
pub open spec fn spec_descriptor(
    name: Option<Seq<char>>,
    orig_acc: Seq<char>,
    run_acc: Seq<char>,
    md5: Seq<char>,
    ftp: Seq<char>,
    aspera: Seq<char>,
) -> DownloadInfoV {
    let url = "https://"@ + ftp;
    DownloadInfoV {
        name,
        orig_acc,
        run_acc,
        http_url: url,
        md5,
        ascp_url: "era-fasp@"@ + aspera,
        download_path: Some(spec_download_path(name, orig_acc, run_acc, url)),
    }
}

/// The descriptors of one record: its three `;`-delimited fields are split
/// and zipped positionally, stopping at the shortest list; excess entries in
/// longer fields are dropped.
pub open spec fn spec_expand_record(
    name: Option<Seq<char>>,
    orig_acc: Seq<char>,
    rec: EnaRecordV,
) -> Seq<DownloadInfoV> {
    let md5s = split_on(rec.fastq_md5, ';');
    let ftps = split_on(rec.fastq_ftp, ';');
    let asps = split_on(rec.fastq_aspera, ';');
    Seq::new(
        min3(md5s.len() as int, ftps.len() as int, asps.len() as int) as nat,
        |i: int| spec_descriptor(name, orig_acc, rec.run_accession, md5s[i], ftps[i], asps[i]),
    )
}

/// The descriptors of a record sequence: each record's descriptors in field
/// order, records in their given order.
pub open spec fn spec_expand(
    name: Option<Seq<char>>,
    orig_acc: Seq<char>,
    recs: Seq<EnaRecordV>,
) -> Seq<DownloadInfoV>
    decreases recs.len(),
{
    if recs.len() == 0 {
        Seq::empty()
    } else {
        spec_expand_record(name, orig_acc, recs[0]) + spec_expand(name, orig_acc, recs.skip(1))
    }
}

proof fn lemma_spec_expand_push(
    name: Option<Seq<char>>,
    orig_acc: Seq<char>,
    recs: Seq<EnaRecordV>,
    r: EnaRecordV,
)
    ensures
        spec_expand(name, orig_acc, recs.push(r)) == spec_expand(name, orig_acc, recs)
            + spec_expand_record(name, orig_acc, r),
    decreases recs.len(),
{
    if recs.len() == 0 {
        let e = Seq::<EnaRecordV>::empty();
        assert(recs.push(r).skip(1) =~= e);
        assert(recs =~= e);
        assert(recs.push(r)[0] == r);
        assert(spec_expand(name, orig_acc, e) == Seq::<DownloadInfoV>::empty());
        assert(spec_expand(name, orig_acc, recs.push(r)) == spec_expand_record(name, orig_acc, r)
            + Seq::<DownloadInfoV>::empty());
        assert(spec_expand_record(name, orig_acc, r) + Seq::<DownloadInfoV>::empty()
            =~= Seq::<DownloadInfoV>::empty() + spec_expand_record(name, orig_acc, r));
    } else {
        assert(recs.push(r).skip(1) =~= recs.skip(1).push(r));
        lemma_spec_expand_push(name, orig_acc, recs.skip(1), r);
        assert(recs.push(r)[0] == recs[0]);
        let head = spec_expand_record(name, orig_acc, recs[0]);
        let mid = spec_expand(name, orig_acc, recs.skip(1));
        let tail = spec_expand_record(name, orig_acc, r);
        assert(spec_expand(name, orig_acc, recs.push(r)) == head + (mid + tail));
        assert(spec_expand(name, orig_acc, recs) == head + mid);
        assert(head + (mid + tail) =~= (head + mid) + tail);
    }
}

/// What one record contributes to an expansion: one descriptor per aligned
/// triple of its three split fields, stopping at the shortest list, with the
/// record's run accession copied into every descriptor, the checksum piece
/// verbatim (so a non-empty piece gives a non-empty checksum), and the fixed
/// scheme and credential prefixes in front of the URL pieces.
pub proof fn lemma_expand_record_descriptors(
    name: Option<Seq<char>>,
    orig_acc: Seq<char>,
    rec: EnaRecordV,
)
    ensures
        ({
            let md5s = split_on(rec.fastq_md5, ';');
            let ftps = split_on(rec.fastq_ftp, ';');
            let asps = split_on(rec.fastq_aspera, ';');
            let ds = spec_expand_record(name, orig_acc, rec);
            &&& ds.len() == min3(md5s.len() as int, ftps.len() as int, asps.len() as int)
            &&& forall|i: int|
                0 <= i < ds.len() ==> {
                    &&& (#[trigger] ds[i]).run_acc == rec.run_accession
                    &&& ds[i].orig_acc == orig_acc
                    &&& ds[i].name == name
                    &&& ds[i].md5 == md5s[i]
                    &&& ds[i].http_url == "https://"@ + ftps[i]
                    &&& ds[i].ascp_url == "era-fasp@"@ + asps[i]
                }
        }),
{
}

impl AccessionCodes {
    /// Expands archive records into one descriptor per physical file: each
    /// record's three `;`-delimited fields are split and zipped positionally,
    /// stopping at the shortest list, in record order then intra-record field
    /// order.
    pub fn expand(&self, records: &Vec<EnaRecord>) -> (r: Vec<DownloadInfo>)
        ensures
            r@.map_values(|d: DownloadInfo| d@) == spec_expand(
                self.spec_name(),
                self.spec_orig(),
                records@.map_values(|e: EnaRecord| e@),
            ),
    {
        let ghost recs = records@.map_values(|e: EnaRecord| e@);
        let mut out: Vec<DownloadInfo> = Vec::new();
        let mut ri: usize = 0;
        proof {
            assert(out@.map_values(|d: DownloadInfo| d@) =~= Seq::<DownloadInfoV>::empty());
            assert(recs.take(0) =~= Seq::<EnaRecordV>::empty());
        }
        while ri < records.len()
            invariant
                ri <= records.len(),
                recs == records@.map_values(|e: EnaRecord| e@),
                out@.map_values(|d: DownloadInfo| d@) == spec_expand(
                    self.spec_name(),
                    self.spec_orig(),
                    recs.take(ri as int),
                ),
            decreases records.len() - ri,
        {
            let rec = &records[ri];
            let ghost part = spec_expand_record(self.spec_name(), self.spec_orig(), rec@);
            let md5s = split_str(rec.fastq_md5.as_str(), ';');
            let ftps = split_str(rec.fastq_ftp.as_str(), ';');
            let asps = split_str(rec.fastq_aspera.as_str(), ';');
            let mut m = md5s.len();
            if ftps.len() < m {
                m = ftps.len();
            }
            if asps.len() < m {
                m = asps.len();
            }
            let ghost before = out@.map_values(|d: DownloadInfo| d@);
            let mut k: usize = 0;
            proof {
                assert(part.take(0) =~= Seq::<DownloadInfoV>::empty());
                assert(before + part.take(0) =~= before);
            }
            while k < m
                invariant
                    k <= m,
                    m == part.len(),
                    m <= md5s.len() && m <= ftps.len() && m <= asps.len(),
                    md5s@.map_values(|t: String| t@) == split_on(rec.fastq_md5@, ';'),
                    ftps@.map_values(|t: String| t@) == split_on(rec.fastq_ftp@, ';'),
                    asps@.map_values(|t: String| t@) == split_on(rec.fastq_aspera@, ';'),
                    part == spec_expand_record(self.spec_name(), self.spec_orig(), rec@),
                    out@.map_values(|d: DownloadInfo| d@) == before + part.take(k as int),
                decreases m - k,
            {
                let name = self.name();
                let orig = self.orig_accession();
                let mut url = "https://".to_owned();
                url.append(ftps[k].as_str());
                let mut ascp = "era-fasp@".to_owned();
                ascp.append(asps[k].as_str());
                let info = DownloadInfo::new(
                    name,
                    orig,
                    rec.run_accession.clone(),
                    url,
                    md5s[k].clone(),
                    ascp,
                );
                let ghost old_out = out@.map_values(|d: DownloadInfo| d@);
                proof {
                    assert(md5s@.map_values(|t: String| t@)[k as int] == md5s@[k as int]@);
                    assert(ftps@.map_values(|t: String| t@)[k as int] == ftps@[k as int]@);
                    assert(asps@.map_values(|t: String| t@)[k as int] == asps@[k as int]@);
                    assert(info@ == part[k as int]);
                }
                out.push(info);
                proof {
                    assert(out@.map_values(|d: DownloadInfo| d@) =~= old_out.push(info@));
                    assert(old_out.push(info@) =~= before + part.take(k + 1));
                }
                k = k + 1;
            }
            proof {
                assert(part.take(m as int) =~= part);
                lemma_spec_expand_push(self.spec_name(), self.spec_orig(), recs.take(ri as int), rec@);
                assert(recs.take(ri + 1) =~= recs.take(ri as int).push(rec@));
            }
            ri = ri + 1;
        }
        proof {
            assert(recs.take(records@.len() as int) =~= recs);
        }
        out
    }
}

} // verus!
