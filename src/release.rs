//! The release record, its mathematical model, and the parser that builds it
//! from a sequence of lines.

use std::collections::BTreeMap;
use vstd::prelude::*;

use crate::text::{
    field_value, find_separator, has_prefix, has_separator, is_space, parse_line, separator_at,
    trim, trim_spaces,
};

verus! {

broadcast use vstd::std_specs::btree::lemma_btree_map_deepview_dom;

/// How many known fields a record has.
pub const FIELD_COUNT: usize = 18;

/// The `KEY=` prefix of known field `i`, in the order in which lines are
/// tested against them.
pub open spec fn key_prefix(i: int) -> Seq<char> {
    if i == 0 {
        "NAME="@
    } else if i == 1 {
        "VERSION="@
    } else if i == 2 {
        "ID="@
    } else if i == 3 {
        "ID_LIKE="@
    } else if i == 4 {
        "VERSION_ID="@
    } else if i == 5 {
        "VERSION_CODENAME="@
    } else if i == 6 {
        "PRETTY_NAME="@
    } else if i == 7 {
        "ANSI_COLOR="@
    } else if i == 8 {
        "CPE_NAME="@
    } else if i == 9 {
        "HOME_URL="@
    } else if i == 10 {
        "DOCUMENTATION_URL="@
    } else if i == 11 {
        "SUPPORT_URL="@
    } else if i == 12 {
        "BUG_REPORT_URL="@
    } else if i == 13 {
        "PRIVACY_POLICY_URL="@
    } else if i == 14 {
        "BUILD_ID="@
    } else if i == 15 {
        "VARIANT="@
    } else if i == 16 {
        "VARIANT_ID="@
    } else {
        "LOGO="@
    }
}

/// The first known field, from `i` on, whose prefix starts `t`.
pub open spec fn known_field_from(t: Seq<char>, i: int) -> Option<int>
    decreases FIELD_COUNT - i,
{
    if i < 0 || i >= FIELD_COUNT {
        None
    } else if key_prefix(i).is_prefix_of(t) {
        Some(i)
    } else {
        known_field_from(t, i + 1)
    }
}

/// The known field whose prefix starts the trimmed line `t`, if any.
pub open spec fn known_field(t: Seq<char>) -> Option<int> {
    known_field_from(t, 0)
}

/// What a record holds: the values of the known fields, indexed as
/// `key_prefix`, and the map of the other keys.
pub struct ReleaseModel {
    pub fields: Seq<Seq<char>>,
    pub extra: Map<Seq<char>, Seq<char>>,
}

/// The record before any line: `Linux` as name and pretty name, `linux` as
/// id, every other field empty, no other key.
pub open spec fn default_model() -> ReleaseModel {
    ReleaseModel {
        fields: Seq::new(
            FIELD_COUNT as nat,
            |i: int|
                if i == 0 || i == 6 {
                    "Linux"@
                } else if i == 2 {
                    "linux"@
                } else {
                    Seq::empty()
                },
        ),
        extra: Map::empty(),
    }
}

/// The position of the first `=` in `t`, where it holds one.
pub open spec fn separator_of(t: Seq<char>) -> int {
    choose|k: int| separator_at(t, k)
}

/// The record `m` after one more line.
pub open spec fn apply_line(m: ReleaseModel, line: Seq<char>) -> ReleaseModel {
    let t = trim(line);
    match known_field(t) {
        Some(i) => ReleaseModel {
            fields: m.fields.update(i, field_value(t.subrange(key_prefix(i).len() as int, t.len() as int))),
            extra: m.extra,
        },
        None => {
            if has_separator(t) && separator_of(t) + 1 < t.len() {
                let k = separator_of(t);
                ReleaseModel {
                    fields: m.fields,
                    extra: m.extra.insert(t.subrange(0, k), t.subrange(k + 1, t.len() as int)),
                }
            } else {
                m
            }
        },
    }
}

/// The record that the lines describe, read in order.
pub open spec fn parse_lines(lines: Seq<Seq<char>>) -> ReleaseModel
    decreases lines.len(),
{
    if lines.len() == 0 {
        default_model()
    } else {
        apply_line(parse_lines(lines.drop_last()), lines.last())
    }
}

/// What `known_field_from` finds is the first prefix, from `j` on, that starts `t`.
pub proof fn lemma_known_field_from(t: Seq<char>, j: int)
    requires
        0 <= j <= FIELD_COUNT,
    ensures
        match known_field_from(t, j) {
            Some(i) => j <= i < FIELD_COUNT && key_prefix(i).is_prefix_of(t) && forall|m: int|
                j <= m < i ==> !key_prefix(m).is_prefix_of(t),
            None => forall|m: int| j <= m < FIELD_COUNT ==> !key_prefix(m).is_prefix_of(t),
        },
    decreases FIELD_COUNT - j,
{
    if j < FIELD_COUNT && !key_prefix(j).is_prefix_of(t) {
        lemma_known_field_from(t, j + 1);
    }
}

/// The first `=` of a string is at one place only.
pub proof fn lemma_separator_unique(t: Seq<char>, k: int)
    requires
        separator_at(t, k),
    ensures
        has_separator(t),
        separator_of(t) == k,
{
    let c = separator_of(t);
    assert(separator_at(t, c));
    if c < k {
        assert(t[c] != '=');
    } else if k < c {
        assert(t[k] != '=');
    }
}

/// Contents of an `os-release` file.
///
/// Quotes around values are removed; escape sequences are not interpreted.
/// Optional fields that are absent are empty.
#[derive(Clone, Debug, PartialEq)]
pub struct OsRelease {
    /// The name of the OS, without its version. Defaults to `Linux`.
    pub name: String,
    /// The version of the OS, without its name.
    pub version: String,
    /// An identifier of the OS, without its version. Defaults to `linux`.
    pub id: String,
    /// Space-separated identifiers of the operating systems this one derives from.
    pub id_like: String,
    /// The codename of this version.
    pub version_codename: String,
    /// An identifier of this version.
    pub version_id: String,
    /// A name to show to users. Defaults to `Linux`.
    pub pretty_name: String,
    /// The suggested console color for the name, as an ANSI escape parameter.
    pub ansi_color: String,
    /// A CPE name of the OS.
    pub cpe_name: String,
    /// The home page of the OS.
    pub home_url: String,
    /// The documentation page of the OS.
    pub documentation_url: String,
    /// Where to seek support.
    pub support_url: String,
    /// Where to report bugs.
    pub bug_report_url: String,
    /// The privacy policy.
    pub privacy_policy_url: String,
    /// An identifier of the image the OS was installed from.
    pub build_id: String,
    /// The variant or edition of the OS.
    pub variant: String,
    /// An identifier of the variant.
    pub variant_id: String,
    /// The name of the OS logo.
    pub logo: String,
    /// The keys that are not known fields, with their values.
    pub extra: BTreeMap<String, String>,
}

impl View for OsRelease {
    type V = ReleaseModel;

    open spec fn view(&self) -> ReleaseModel {
        ReleaseModel {
            fields: seq![
                self.name@,
                self.version@,
                self.id@,
                self.id_like@,
                self.version_id@,
                self.version_codename@,
                self.pretty_name@,
                self.ansi_color@,
                self.cpe_name@,
                self.home_url@,
                self.documentation_url@,
                self.support_url@,
                self.bug_report_url@,
                self.privacy_policy_url@,
                self.build_id@,
                self.variant@,
                self.variant_id@,
                self.logo@,
            ],
            extra: self.extra.deep_view(),
        }
    }
}

impl Default for OsRelease {
    fn default() -> (r: OsRelease)
        ensures
            r@ == default_model(),
    {
        let r = OsRelease {
            name: String::from_str("Linux"),
            version: String::new(),
            id: String::from_str("linux"),
            id_like: String::new(),
            version_codename: String::new(),
            version_id: String::new(),
            pretty_name: String::from_str("Linux"),
            ansi_color: String::new(),
            cpe_name: String::new(),
            home_url: String::new(),
            documentation_url: String::new(),
            support_url: String::new(),
            bug_report_url: String::new(),
            privacy_policy_url: String::new(),
            build_id: String::new(),
            variant: String::new(),
            variant_id: String::new(),
            logo: String::new(),
            extra: BTreeMap::new(),
        };
        assert(r@.fields =~= default_model().fields);
        assert(r@.extra =~= default_model().extra);
        r
    }
}


/// The `KEY=` prefix of known field `i`.
fn key_str(i: usize) -> (r: &'static str)
    requires
        i < FIELD_COUNT,
    ensures
        r@ == key_prefix(i as int),
{
    if i == 0 {
        "NAME="
    } else if i == 1 {
        "VERSION="
    } else if i == 2 {
        "ID="
    } else if i == 3 {
        "ID_LIKE="
    } else if i == 4 {
        "VERSION_ID="
    } else if i == 5 {
        "VERSION_CODENAME="
    } else if i == 6 {
        "PRETTY_NAME="
    } else if i == 7 {
        "ANSI_COLOR="
    } else if i == 8 {
        "CPE_NAME="
    } else if i == 9 {
        "HOME_URL="
    } else if i == 10 {
        "DOCUMENTATION_URL="
    } else if i == 11 {
        "SUPPORT_URL="
    } else if i == 12 {
        "BUG_REPORT_URL="
    } else if i == 13 {
        "PRIVACY_POLICY_URL="
    } else if i == 14 {
        "BUILD_ID="
    } else if i == 15 {
        "VARIANT="
    } else if i == 16 {
        "VARIANT_ID="
    } else {
        "LOGO="
    }
}

/// The first known field whose prefix starts `t`, if any.
fn find_known(t: &str) -> (r: Option<usize>)
    ensures
        match r {
            Some(i) => i < FIELD_COUNT && known_field(t@) == Some(i as int),
            None => known_field(t@) is None,
        },
{
    let mut i: usize = 0;
    while i < FIELD_COUNT
        invariant
            i <= FIELD_COUNT,
            known_field(t@) == known_field_from(t@, i as int),
        decreases FIELD_COUNT - i,
    {
        if has_prefix(t, key_str(i)) {
            return Some(i);
        }
        i = i + 1;
    }
    None
}

/// Relies on `BTreeMap::insert`: afterwards the map holds `v` under `k` and
/// every other key as before. (vstd specifies this call only for key types
/// whose order it models, which `String` is not.)
#[verifier::external_body]
fn insert_entry(m: &mut BTreeMap<String, String>, k: String, v: String)
    ensures
        final(m).deep_view() == old(m).deep_view().insert(k@, v@),
{
    m.insert(k, v);
}

impl OsRelease {
    /// Sets known field `i` to `v`.
    fn set_field(&mut self, i: usize, v: String)
        requires
            i < FIELD_COUNT,
        ensures
            final(self)@.fields == old(self)@.fields.update(i as int, v@),
            final(self)@.extra == old(self)@.extra,
    {
        let ghost before = self@.fields;
        if i == 0 {
            self.name = v;
        } else if i == 1 {
            self.version = v;
        } else if i == 2 {
            self.id = v;
        } else if i == 3 {
            self.id_like = v;
        } else if i == 4 {
            self.version_id = v;
        } else if i == 5 {
            self.version_codename = v;
        } else if i == 6 {
            self.pretty_name = v;
        } else if i == 7 {
            self.ansi_color = v;
        } else if i == 8 {
            self.cpe_name = v;
        } else if i == 9 {
            self.home_url = v;
        } else if i == 10 {
            self.documentation_url = v;
        } else if i == 11 {
            self.support_url = v;
        } else if i == 12 {
            self.bug_report_url = v;
        } else if i == 13 {
            self.privacy_policy_url = v;
        } else if i == 14 {
            self.build_id = v;
        } else if i == 15 {
            self.variant = v;
        } else if i == 16 {
            self.variant_id = v;
        } else {
            self.logo = v;
        }
        assert(self@.fields =~= before.update(i as int, v@));
    }

    /// Reads one more line into the record.
    fn apply(&mut self, line: &str)
        ensures
            final(self)@ == apply_line(old(self)@, line@),
    {
        let t = trim_spaces(line);
        match find_known(t) {
            Some(i) => {
                let key = key_str(i);
                proof {
                    lemma_known_field_from(t@, 0);
                }
                let v = parse_line(t, key.unicode_len());
                self.set_field(i, String::from_str(v));
            },
            None => match find_separator(t) {
                Some(pos) => {
                    proof {
                        lemma_separator_unique(t@, pos as int);
                    }
                    let n = t.unicode_len();
                    if pos + 1 < n {
                        let k = String::from_str(t.substring_char(0, pos));
                        let v = String::from_str(t.substring_char(pos + 1, n));
                        insert_entry(&mut self.extra, k, v);
                    }
                },
                None => {},
            },
        }
    }
}

/// The views of a sequence of lines.
pub open spec fn line_views(lines: Seq<String>) -> Seq<Seq<char>> {
    lines.map_values(|l: String| l@)
}

impl OsRelease {
    /// The record that `lines` describe, read in order. Each line is trimmed;
    /// a line that starts with a known `KEY=` prefix sets that field; any
    /// other line with a `=` followed by at least one character adds its key
    /// and value to `extra`; every other line is skipped.
    pub fn from_lines(lines: &[String]) -> (r: OsRelease)
        ensures
            r@ == parse_lines(line_views(lines@)),
    {
        let ghost views = line_views(lines@);
        let mut r = OsRelease::default();
        let mut i: usize = 0;
        assert(views.subrange(0, 0) =~= Seq::<Seq<char>>::empty());
        while i < lines.len()
            invariant
                i <= lines@.len(),
                views == line_views(lines@),
                r@ == parse_lines(views.subrange(0, i as int)),
            decreases lines@.len() - i,
        {
            r.apply(lines[i].as_str());
            assert(views.subrange(0, i as int + 1).drop_last() =~= views.subrange(0, i as int));
            i = i + 1;
        }
        assert(views.subrange(0, i as int) =~= views);
        r
    }
}

/// Each key starts with a character that is not whitespace and ends with
/// its only `=`.
pub proof fn lemma_key_shape(i: int)
    requires
        0 <= i < FIELD_COUNT,
    ensures
        key_prefix(i).len() >= 2,
        !is_space(key_prefix(i)[0]),
        key_prefix(i).last() == '=',
        forall|k: int| 0 <= k < key_prefix(i).len() - 1 ==> key_prefix(i)[k] != '=',
{
    reveal_strlit("NAME=");
    reveal_strlit("VERSION=");
    reveal_strlit("ID=");
    reveal_strlit("ID_LIKE=");
    reveal_strlit("VERSION_ID=");
    reveal_strlit("VERSION_CODENAME=");
    reveal_strlit("PRETTY_NAME=");
    reveal_strlit("ANSI_COLOR=");
    reveal_strlit("CPE_NAME=");
    reveal_strlit("HOME_URL=");
    reveal_strlit("DOCUMENTATION_URL=");
    reveal_strlit("SUPPORT_URL=");
    reveal_strlit("BUG_REPORT_URL=");
    reveal_strlit("PRIVACY_POLICY_URL=");
    reveal_strlit("BUILD_ID=");
    reveal_strlit("VARIANT=");
    reveal_strlit("VARIANT_ID=");
    reveal_strlit("LOGO=");
}

/// No two fields share a key.
pub proof fn lemma_keys_distinct(a: int, b: int)
    requires
        0 <= a < FIELD_COUNT,
        0 <= b < FIELD_COUNT,
        a != b,
    ensures
        key_prefix(a) != key_prefix(b),
{
    reveal_strlit("NAME=");
    reveal_strlit("VERSION=");
    reveal_strlit("ID=");
    reveal_strlit("ID_LIKE=");
    reveal_strlit("VERSION_ID=");
    reveal_strlit("VERSION_CODENAME=");
    reveal_strlit("PRETTY_NAME=");
    reveal_strlit("ANSI_COLOR=");
    reveal_strlit("CPE_NAME=");
    reveal_strlit("HOME_URL=");
    reveal_strlit("DOCUMENTATION_URL=");
    reveal_strlit("SUPPORT_URL=");
    reveal_strlit("BUG_REPORT_URL=");
    reveal_strlit("PRIVACY_POLICY_URL=");
    reveal_strlit("BUILD_ID=");
    reveal_strlit("VARIANT=");
    reveal_strlit("VARIANT_ID=");
    reveal_strlit("LOGO=");
    let ka = key_prefix(a);
    let kb = key_prefix(b);
    assert(ka.len() != kb.len() || ka[0] != kb[0] || ka[1] != kb[1]);
}

/// A line that starts with the key of field `i` sets field `i`: no other key
/// starts it.
pub proof fn lemma_known_key(i: int, t: Seq<char>)
    requires
        0 <= i < FIELD_COUNT,
        key_prefix(i).is_prefix_of(t),
    ensures
        known_field(t) == Some(i),
{
    lemma_known_field_from(t, 0);
    lemma_key_shape(i);
    let ki = key_prefix(i);
    match known_field(t) {
        Some(j) => {
            if j != i {
                lemma_key_shape(j);
                lemma_keys_distinct(i, j);
                let kj = key_prefix(j);
                if kj.len() < ki.len() {
                    assert(ki[kj.len() - 1] == t[kj.len() - 1]);
                } else if kj.len() > ki.len() {
                    assert(kj[ki.len() - 1] == t[ki.len() - 1]);
                } else {
                    assert(ki =~= kj);
                }
            }
        },
        None => {
            assert(!key_prefix(i).is_prefix_of(t));
        },
    }
}

/// A line whose first `=` follows a key that is not a known field's sets no
/// known field.
pub proof fn lemma_unknown_key(key: Seq<char>, t: Seq<char>)
    requires
        t.len() > key.len(),
        t.subrange(0, key.len() as int) == key,
        t[key.len() as int] == '=',
        forall|k: int| 0 <= k < key.len() ==> key[k] != '=',
        forall|i: int| 0 <= i < FIELD_COUNT ==> key + seq!['='] != key_prefix(i),
    ensures
        known_field(t) is None,
        separator_at(t, key.len() as int),
{
    lemma_known_field_from(t, 0);
    assert forall|j: int| 0 <= j < key.len() implies t[j] != '=' by {
        assert(t[j] == t.subrange(0, key.len() as int)[j]);
    }
    if let Some(i) = known_field(t) {
        lemma_key_shape(i);
        let ki = key_prefix(i);
        let l = key.len() as int;
        if ki.len() - 1 < l {
            assert(t[ki.len() - 1] == ki[ki.len() - 1]);
        } else if ki.len() - 1 > l {
            assert(ki[l] == t[l]);
        } else {
            assert(ki =~= key + seq!['=']);
        }
    }
}

/// Reading one more line applies it to the record of the lines before.
pub proof fn lemma_parse_push(lines: Seq<Seq<char>>, line: Seq<char>)
    ensures
        parse_lines(lines.push(line)) == apply_line(parse_lines(lines), line),
{
    assert(lines.push(line).drop_last() =~= lines);
}

} // verus!
