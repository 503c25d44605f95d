//! The catalog of supported cloud images.
//!
//! Each entry points at the upstream "current"/"latest" alias so a fresh
//! download always grabs the latest point release. Its checksum is verified
//! against the published SHA256SUMS or SHA512SUMS file.

use vstd::prelude::*;
use vstd::string::*;
use crate::commands::{lowercase, to_lowercase};
use crate::text::{chars_of, ends_with, is_ascii_text, lower_seq, owned};

verus! {

/// The checksum algorithm of a SUMS file.
#[derive(Clone, Copy, Debug, PartialEq, Eq, Structural)]
pub enum HashAlgo {
    Sha256,
    Sha512,
}

/// One cloud image.
#[derive(Clone, Copy, Debug)]
pub struct Image {
    pub distro: &'static str,
    pub release: &'static str,
    pub codename: &'static str,
    pub image_url: &'static str,
    /// URL of the published SUMS file (SHA256SUMS or SHA512SUMS).
    pub sums_url: &'static str,
    pub sums_algo: HashAlgo,
    /// Filename to look up inside the SUMS file.
    pub sums_filename: &'static str,
    /// Default ostype string for `qm set --ostype`.
    pub ostype: &'static str,
}

/// `"<distro> <release> (<codename>)"`.
pub open spec fn image_label(i: Image) -> Seq<char> {
    i.distro@ + " "@ + i.release@ + " ("@ + i.codename@ + ")"@
}

/// The extension of the cached file: `qcow2` for a `.qcow2` URL, `img` otherwise.
pub open spec fn image_extension(i: Image) -> Seq<char> {
    if ends_with(i.image_url@, ".qcow2"@) {
        "qcow2"@
    } else {
        "img"@
    }
}

/// `"<distro in lower case>-<release>-<codename>.<extension>"`.
pub open spec fn image_cache_filename(i: Image) -> Seq<char> {
    cache_filename_text(lowercase(i.distro@), i)
}

/// `"<lower>-<release>-<codename>.<extension>"`, `lower` standing for the distro.
pub open spec fn cache_filename_text(lower: Seq<char>, i: Image) -> Seq<char> {
    lower + "-"@ + i.release@ + "-"@ + i.codename@ + "."@ + image_extension(i)
}

/// `"<distro in lower case>-<codename>-template"`.
pub open spec fn image_template_name(i: Image) -> Seq<char> {
    template_name_text(lowercase(i.distro@), i)
}

/// `"<lower>-<codename>-template"`, `lower` standing for the distro.
pub open spec fn template_name_text(lower: Seq<char>, i: Image) -> Seq<char> {
    lower + "-"@ + i.codename@ + "-template"@
}

/// Whether `s` ends with `p`.
fn str_ends_with(s: &str, p: &str) -> (r: bool)
    ensures
        r == ends_with(s@, p@),
{
    let a = chars_of(s);
    let b = chars_of(p);
    if b.len() > a.len() {
        return false;
    }
    let off = a.len() - b.len();
    let mut i: usize = 0;
    while i < b.len()
        invariant
            a@ == s@,
            b@ == p@,
            off == a.len() - b.len(),
            i <= b.len(),
            forall|j: int| 0 <= j < i ==> a@[off + j] == b@[j],
        decreases b.len() - i,
    {
        if a[off + i] != b[i] {
            assert(a@.skip(off as int)[i as int] != b@[i as int]);
            return false;
        }
        i = i + 1;
    }
    assert(a@.skip(off as int) =~= b@);
    true
}

impl Image {
    /// The label shown in the image menu.
    pub fn label(&self) -> (r: String)
        ensures
            r@ == image_label(*self),
    {
        let mut s = owned(self.distro);
        s.append(" ");
        s.append(self.release);
        s.append(" (");
        s.append(self.codename);
        s.append(")");
        s
    }

    /// The local cache filename; it embeds distro and release so that several coexist.
    pub fn cache_filename(&self) -> (r: String)
        ensures
            r@ == image_cache_filename(*self),
            is_ascii_text(self.distro@) ==> r@ == cache_filename_text(lower_seq(self.distro@), *self),
    {
        let lower = to_lowercase(self.distro);
        self.cache_filename_with(lower.as_str())
    }

    /// The cache filename with `lower` in place of the lower-cased distro.
    pub fn cache_filename_with(&self, lower: &str) -> (r: String)
        ensures
            r@ == cache_filename_text(lower@, *self),
    {
        let ext = if str_ends_with(self.image_url, ".qcow2") {
            "qcow2"
        } else {
            "img"
        };
        let mut s = owned(lower);
        s.append("-");
        s.append(self.release);
        s.append("-");
        s.append(self.codename);
        s.append(".");
        s.append(ext);
        s
    }

    /// The default name of a template built from this image.
    pub fn template_name(&self) -> (r: String)
        ensures
            r@ == image_template_name(*self),
            is_ascii_text(self.distro@) ==> r@ == template_name_text(lower_seq(self.distro@), *self),
    {
        let lower = to_lowercase(self.distro);
        self.template_name_with(lower.as_str())
    }

    /// The template name with `lower` in place of the lower-cased distro.
    pub fn template_name_with(&self, lower: &str) -> (r: String)
        ensures
            r@ == template_name_text(lower@, *self),
    {
        let mut s = owned(lower);
        s.append("-");
        s.append(self.codename);
        s.append("-template");
        s
    }
}

/// The catalog: Ubuntu 26.04, 24.04 and 22.04 (`.img`, SHA256SUMS) and Debian 13,
/// 12 and 11 (`.qcow2`, SHA512SUMS).
pub open spec fn catalog_spec() -> Seq<Image> {
    seq![
        Image {
            distro: "Ubuntu",
            release: "26.04",
            codename: "resolute",
            image_url: "https://cloud-images.ubuntu.com/resolute/current/resolute-server-cloudimg-amd64.img",
            sums_url: "https://cloud-images.ubuntu.com/resolute/current/SHA256SUMS",
            sums_algo: HashAlgo::Sha256,
            sums_filename: "resolute-server-cloudimg-amd64.img",
            ostype: "l26",
        },
        Image {
            distro: "Ubuntu",
            release: "24.04",
            codename: "noble",
            image_url: "https://cloud-images.ubuntu.com/noble/current/noble-server-cloudimg-amd64.img",
            sums_url: "https://cloud-images.ubuntu.com/noble/current/SHA256SUMS",
            sums_algo: HashAlgo::Sha256,
            sums_filename: "noble-server-cloudimg-amd64.img",
            ostype: "l26",
        },
        Image {
            distro: "Ubuntu",
            release: "22.04",
            codename: "jammy",
            image_url: "https://cloud-images.ubuntu.com/jammy/current/jammy-server-cloudimg-amd64.img",
            sums_url: "https://cloud-images.ubuntu.com/jammy/current/SHA256SUMS",
            sums_algo: HashAlgo::Sha256,
            sums_filename: "jammy-server-cloudimg-amd64.img",
            ostype: "l26",
        },
        Image {
            distro: "Debian",
            release: "13",
            codename: "trixie",
            image_url: "https://cloud.debian.org/images/cloud/trixie/latest/debian-13-generic-amd64.qcow2",
            sums_url: "https://cloud.debian.org/images/cloud/trixie/latest/SHA512SUMS",
            sums_algo: HashAlgo::Sha512,
            sums_filename: "debian-13-generic-amd64.qcow2",
            ostype: "l26",
        },
        Image {
            distro: "Debian",
            release: "12",
            codename: "bookworm",
            image_url: "https://cloud.debian.org/images/cloud/bookworm/latest/debian-12-generic-amd64.qcow2",
            sums_url: "https://cloud.debian.org/images/cloud/bookworm/latest/SHA512SUMS",
            sums_algo: HashAlgo::Sha512,
            sums_filename: "debian-12-generic-amd64.qcow2",
            ostype: "l26",
        },
        Image {
            distro: "Debian",
            release: "11",
            codename: "bullseye",
            image_url: "https://cloud.debian.org/images/cloud/bullseye/latest/debian-11-generic-amd64.qcow2",
            sums_url: "https://cloud.debian.org/images/cloud/bullseye/latest/SHA512SUMS",
            sums_algo: HashAlgo::Sha512,
            sums_filename: "debian-11-generic-amd64.qcow2",
            ostype: "l26",
        },
    ]
}

/// The catalog of supported images; see [`catalog_spec`].
pub fn catalog() -> (r: Vec<Image>)
    ensures
        r@ == catalog_spec(),
{
    let mut r: Vec<Image> = Vec::new();
    r.push(
        Image {
            distro: "Ubuntu",
            release: "26.04",
            codename: "resolute",
            image_url: "https://cloud-images.ubuntu.com/resolute/current/resolute-server-cloudimg-amd64.img",
            sums_url: "https://cloud-images.ubuntu.com/resolute/current/SHA256SUMS",
            sums_algo: HashAlgo::Sha256,
            sums_filename: "resolute-server-cloudimg-amd64.img",
            ostype: "l26",
        },
    );
    r.push(
        Image {
            distro: "Ubuntu",
            release: "24.04",
            codename: "noble",
            image_url: "https://cloud-images.ubuntu.com/noble/current/noble-server-cloudimg-amd64.img",
            sums_url: "https://cloud-images.ubuntu.com/noble/current/SHA256SUMS",
            sums_algo: HashAlgo::Sha256,
            sums_filename: "noble-server-cloudimg-amd64.img",
            ostype: "l26",
        },
    );
    r.push(
        Image {
            distro: "Ubuntu",
            release: "22.04",
            codename: "jammy",
            image_url: "https://cloud-images.ubuntu.com/jammy/current/jammy-server-cloudimg-amd64.img",
            sums_url: "https://cloud-images.ubuntu.com/jammy/current/SHA256SUMS",
            sums_algo: HashAlgo::Sha256,
            sums_filename: "jammy-server-cloudimg-amd64.img",
            ostype: "l26",
        },
    );
    r.push(
        Image {
            distro: "Debian",
            release: "13",
            codename: "trixie",
            image_url: "https://cloud.debian.org/images/cloud/trixie/latest/debian-13-generic-amd64.qcow2",
            sums_url: "https://cloud.debian.org/images/cloud/trixie/latest/SHA512SUMS",
            sums_algo: HashAlgo::Sha512,
            sums_filename: "debian-13-generic-amd64.qcow2",
            ostype: "l26",
        },
    );
    r.push(
        Image {
            distro: "Debian",
            release: "12",
            codename: "bookworm",
            image_url: "https://cloud.debian.org/images/cloud/bookworm/latest/debian-12-generic-amd64.qcow2",
            sums_url: "https://cloud.debian.org/images/cloud/bookworm/latest/SHA512SUMS",
            sums_algo: HashAlgo::Sha512,
            sums_filename: "debian-12-generic-amd64.qcow2",
            ostype: "l26",
        },
    );
    r.push(
        Image {
            distro: "Debian",
            release: "11",
            codename: "bullseye",
            image_url: "https://cloud.debian.org/images/cloud/bullseye/latest/debian-11-generic-amd64.qcow2",
            sums_url: "https://cloud.debian.org/images/cloud/bullseye/latest/SHA512SUMS",
            sums_algo: HashAlgo::Sha512,
            sums_filename: "debian-11-generic-amd64.qcow2",
            ostype: "l26",
        },
    );
    assert(r@ =~= catalog_spec());
    r
}

/// Every image URL ends with the filename that the SUMS file lists it under, and
/// the SUMS file is SHA256SUMS for a SHA-256 entry and SHA512SUMS for a SHA-512 one.
pub proof fn lemma_catalog_consistent(i: int)
    requires
        0 <= i < catalog_spec().len(),
    ensures
        ends_with(catalog_spec()[i].image_url@, catalog_spec()[i].sums_filename@),
        catalog_spec()[i].sums_algo == HashAlgo::Sha256 ==> ends_with(
            catalog_spec()[i].sums_url@,
            "SHA256SUMS"@,
        ),
        catalog_spec()[i].sums_algo == HashAlgo::Sha512 ==> ends_with(
            catalog_spec()[i].sums_url@,
            "SHA512SUMS"@,
        ),
{
    let e = catalog_spec()[i];
    reveal_strlit("SHA256SUMS");
    reveal_strlit("SHA512SUMS");
    if i == 0 {
        reveal_strlit("https://cloud-images.ubuntu.com/resolute/current/resolute-server-cloudimg-amd64.img");
        reveal_strlit("https://cloud-images.ubuntu.com/resolute/current/SHA256SUMS");
        reveal_strlit("resolute-server-cloudimg-amd64.img");
        assert(e.image_url@.skip(e.image_url@.len() - e.sums_filename@.len()) =~= e.sums_filename@);
        assert(e.sums_url@.skip(e.sums_url@.len() - 10) =~= "SHA256SUMS"@);
    } else if i == 1 {
        reveal_strlit("https://cloud-images.ubuntu.com/noble/current/noble-server-cloudimg-amd64.img");
        reveal_strlit("https://cloud-images.ubuntu.com/noble/current/SHA256SUMS");
        reveal_strlit("noble-server-cloudimg-amd64.img");
        assert(e.image_url@.skip(e.image_url@.len() - e.sums_filename@.len()) =~= e.sums_filename@);
        assert(e.sums_url@.skip(e.sums_url@.len() - 10) =~= "SHA256SUMS"@);
    } else if i == 2 {
        reveal_strlit("https://cloud-images.ubuntu.com/jammy/current/jammy-server-cloudimg-amd64.img");
        reveal_strlit("https://cloud-images.ubuntu.com/jammy/current/SHA256SUMS");
        reveal_strlit("jammy-server-cloudimg-amd64.img");
        assert(e.image_url@.skip(e.image_url@.len() - e.sums_filename@.len()) =~= e.sums_filename@);
        assert(e.sums_url@.skip(e.sums_url@.len() - 10) =~= "SHA256SUMS"@);
    } else if i == 3 {
        reveal_strlit("https://cloud.debian.org/images/cloud/trixie/latest/debian-13-generic-amd64.qcow2");
        reveal_strlit("https://cloud.debian.org/images/cloud/trixie/latest/SHA512SUMS");
        reveal_strlit("debian-13-generic-amd64.qcow2");
        assert(e.image_url@.skip(e.image_url@.len() - e.sums_filename@.len()) =~= e.sums_filename@);
        assert(e.sums_url@.skip(e.sums_url@.len() - 10) =~= "SHA512SUMS"@);
    } else if i == 4 {
        reveal_strlit("https://cloud.debian.org/images/cloud/bookworm/latest/debian-12-generic-amd64.qcow2");
        reveal_strlit("https://cloud.debian.org/images/cloud/bookworm/latest/SHA512SUMS");
        reveal_strlit("debian-12-generic-amd64.qcow2");
        assert(e.image_url@.skip(e.image_url@.len() - e.sums_filename@.len()) =~= e.sums_filename@);
        assert(e.sums_url@.skip(e.sums_url@.len() - 10) =~= "SHA512SUMS"@);
    } else {
        reveal_strlit("https://cloud.debian.org/images/cloud/bullseye/latest/debian-11-generic-amd64.qcow2");
        reveal_strlit("https://cloud.debian.org/images/cloud/bullseye/latest/SHA512SUMS");
        reveal_strlit("debian-11-generic-amd64.qcow2");
        assert(e.image_url@.skip(e.image_url@.len() - e.sums_filename@.len()) =~= e.sums_filename@);
        assert(e.sums_url@.skip(e.sums_url@.len() - 10) =~= "SHA512SUMS"@);
    }
}

/// The extension of an entry's cached file: `img` for the Ubuntu entries
/// (the first three), `qcow2` for the Debian ones.
proof fn lemma_catalog_extension(i: int)
    requires
        0 <= i < catalog_spec().len(),
    ensures
        image_extension(catalog_spec()[i]) == if i < 3 {
            "img"@
        } else {
            "qcow2"@
        },
{
    let url = catalog_spec()[i].image_url@;
    let q = ".qcow2"@;
    reveal_strlit(".qcow2");
    if i == 0 {
        reveal_strlit("https://cloud-images.ubuntu.com/resolute/current/resolute-server-cloudimg-amd64.img");
    } else if i == 1 {
        reveal_strlit("https://cloud-images.ubuntu.com/noble/current/noble-server-cloudimg-amd64.img");
    } else if i == 2 {
        reveal_strlit("https://cloud-images.ubuntu.com/jammy/current/jammy-server-cloudimg-amd64.img");
    } else if i == 3 {
        reveal_strlit("https://cloud.debian.org/images/cloud/trixie/latest/debian-13-generic-amd64.qcow2");
    } else if i == 4 {
        reveal_strlit("https://cloud.debian.org/images/cloud/bookworm/latest/debian-12-generic-amd64.qcow2");
    } else {
        reveal_strlit("https://cloud.debian.org/images/cloud/bullseye/latest/debian-11-generic-amd64.qcow2");
    }
    if i < 3 {
        assert(url[url.len() - 1] == 'g');
        if ends_with(url, q) {
            assert(url.skip(url.len() - q.len())[5] == url[url.len() - 1]);
        }
    } else {
        assert(url.skip(url.len() - q.len()) =~= q);
    }
}

/// Two cache filenames of images of one distro differ when the releases
/// differ in their second character.
proof fn lemma_cache_filenames_differ_in_release(a: Image, b: Image)
    requires
        a.distro@ == b.distro@,
        a.release@.len() >= 2,
        b.release@.len() >= 2,
        a.release@[1] != b.release@[1],
    ensures
        image_cache_filename(a) != image_cache_filename(b),
{
    reveal_strlit("-");
    let n: int = lowercase(a.distro@).len() as int;
    let pa = lowercase(a.distro@) + "-"@ + a.release@;
    let pb = lowercase(b.distro@) + "-"@ + b.release@;
    assert(pa[n + 2] == a.release@[1]);
    assert(pb[n + 2] == b.release@[1]);
    assert(image_cache_filename(a) == pa + ("-"@ + a.codename@ + "."@ + image_extension(a)));
    assert(image_cache_filename(b) == pb + ("-"@ + b.codename@ + "."@ + image_extension(b)));
    assert(image_cache_filename(a)[n + 2] == pa[n + 2]);
    assert(image_cache_filename(b)[n + 2] == pb[n + 2]);
}

/// Two cache filenames differ when their last characters do.
proof fn lemma_cache_filenames_differ_at_end(a: Image, b: Image)
    requires
        image_extension(a).len() > 0,
        image_extension(b).len() > 0,
        image_extension(a).last() != image_extension(b).last(),
    ensures
        image_cache_filename(a) != image_cache_filename(b),
{
    let fa = image_cache_filename(a);
    let fb = image_cache_filename(b);
    assert(fa[fa.len() - 1] == image_extension(a).last());
    assert(fb[fb.len() - 1] == image_extension(b).last());
}

/// No two images of the catalog share a cache filename, so all of them can
/// sit in the cache together.
pub proof fn lemma_cache_filenames_distinct(i: int, j: int)
    requires
        0 <= i < catalog_spec().len(),
        0 <= j < catalog_spec().len(),
        i != j,
    ensures
        image_cache_filename(catalog_spec()[i]) != image_cache_filename(catalog_spec()[j]),
{
    let a = catalog_spec()[i];
    let b = catalog_spec()[j];
    lemma_catalog_extension(i);
    lemma_catalog_extension(j);
    reveal_strlit("img");
    reveal_strlit("qcow2");
    reveal_strlit("26.04");
    reveal_strlit("24.04");
    reveal_strlit("22.04");
    reveal_strlit("13");
    reveal_strlit("12");
    reveal_strlit("11");
    if (i < 3) == (j < 3) {
        lemma_cache_filenames_differ_in_release(a, b);
    } else {
        lemma_cache_filenames_differ_at_end(a, b);
    }
}

} // verus!
