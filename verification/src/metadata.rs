//! The build-metadata text of a TAB archive and the plan of the archive's
//! entries: one metadata entry, then the same image bytes twice per input,
//! under two names.

use vstd::prelude::*;

verus! {

/// The metadata text: format version, package name, board filter, and —
/// outside deterministic mode — a build date line.
pub open spec fn spec_metadata(package_name: Seq<char>, build_date: Option<Seq<char>>) -> Seq<
    char,
> {
    "tab-version = 1\nname = \""@ + package_name + "\"\nonly-for-boards = \"\"\n"@ + (match build_date {
        Option::Some(d) => "build-date = "@ + d + "\n"@,
        Option::None => Seq::empty(),
    })
}

/// Build the metadata text.  In deterministic mode pass no build date: the
/// text is then a function of the package name alone, and the archive is
/// byte-for-byte reproducible.
pub fn build_metadata(package_name: &str, build_date: Option<&str>) -> (r: String)
    ensures
        r@ == spec_metadata(
            package_name@,
            (match build_date {
                Option::Some(d) => Option::Some(d@),
                Option::None => Option::None,
            }),
        ),
{
    let mut s = String::from_str("tab-version = 1\nname = \"");
    s.append(package_name);
    s.append("\"\nonly-for-boards = \"\"\n");
    match build_date {
        Option::Some(d) => {
            s.append("build-date = ");
            s.append(d);
            s.append("\n");
            proof {
                assert(s@ =~= spec_metadata(package_name@, Option::Some(d@)));
            }
        },
        Option::None => {
            proof {
                assert(s@ =~= spec_metadata(package_name@, Option::None));
            }
        },
    }
    s
}

/// One entry of the archive: a file name and its bytes.
pub struct TabEntry {
    /// Name under which the bytes are stored.
    pub name: String,
    /// The stored bytes.
    pub bytes: Vec<u8>,
}

/// One converted input: the two names its image is stored under, and the
/// image bytes.
pub struct TabImage {
    /// Name carrying the format-specific extension.
    pub tbf_name: String,
    /// Name carrying the generic binary extension.
    pub bin_name: String,
    /// The image bytes.
    pub image: Vec<u8>,
}

/// The entries of the archive, in storage order: the metadata text under
/// "metadata.toml", then, per input in input order, the image bytes under
/// the format-specific name and the same bytes again under the generic
/// name.
pub fn archive_plan(metadata: Vec<u8>, images: Vec<TabImage>) -> (r: Vec<TabEntry>)
    ensures
        r@.len() == 1 + 2 * images@.len(),
        r@[0].name@ == "metadata.toml"@,
        r@[0].bytes@ == metadata@,
        forall|i: int|
            0 <= i < images@.len() ==> {
                &&& (#[trigger] r@[1 + 2 * i]).name@ == images@[i].tbf_name@
                &&& r@[1 + 2 * i].bytes@ == images@[i].image@
                &&& r@[2 + 2 * i].name@ == images@[i].bin_name@
                &&& r@[2 + 2 * i].bytes@ == images@[i].image@
            },
{
    let ghost images0 = images@;
    let mut images = images;
    let total = images.len();
    proof {
        assert(images0.len() == total);
    }
    let mut entries: Vec<TabEntry> = Vec::new();
    entries.push(TabEntry { name: String::from_str("metadata.toml"), bytes: metadata });
    let mut i: usize = 0;
    while images.len() > 0
        invariant
            images0.len() <= usize::MAX,
            i + images@.len() == images0.len(),
            images@ == images0.skip(i as int),
            entries@.len() == 1 + 2 * i,
            entries@[0].name@ == "metadata.toml"@,
            entries@[0].bytes@ == metadata@,
            forall|j: int|
                0 <= j < i ==> {
                    &&& (#[trigger] entries@[1 + 2 * j]).name@ == images0[j].tbf_name@
                    &&& entries@[1 + 2 * j].bytes@ == images0[j].image@
                    &&& entries@[2 + 2 * j].name@ == images0[j].bin_name@
                    &&& entries@[2 + 2 * j].bytes@ == images0[j].image@
                },
        decreases images@.len(),
    {
        let img = images.remove(0);
        proof {
            assert(images0.skip(i as int)[0] == images0[i as int]);
            assert(images0.skip(i as int).remove(0) =~= images0.skip(i + 1));
        }
        let bytes_again = img.image.clone();
        proof {
            assert(bytes_again@ =~= img.image@);
        }
        let ghost e0 = entries@;
        let ghost gimg = img;
        entries.push(TabEntry { name: img.tbf_name, bytes: img.image });
        let ghost e1 = entries@;
        entries.push(TabEntry { name: img.bin_name, bytes: bytes_again });
        proof {
            assert forall|j: int|
                0 <= j < i + 1 implies {
                &&& (#[trigger] entries@[1 + 2 * j]).name@ == images0[j].tbf_name@
                &&& entries@[1 + 2 * j].bytes@ == images0[j].image@
                &&& entries@[2 + 2 * j].name@ == images0[j].bin_name@
                &&& entries@[2 + 2 * j].bytes@ == images0[j].image@
            } by {
                if j < i {
                    assert(entries@[1 + 2 * j] == e0[1 + 2 * j]);
                    assert(entries@[2 + 2 * j] == e0[2 + 2 * j]);
                } else {
                    assert(entries@[1 + 2 * j] == e1[1 + 2 * j]);
                    assert(e1[1 + 2 * j].name@ == gimg.tbf_name@);
                    assert(entries@[2 + 2 * j].name@ == gimg.bin_name@);
                }
            }
        }
        i = i + 1;
    }
    proof {
        assert(images0.skip(images0.len() as int).len() == 0);
    }
    entries
}

} // verus!
