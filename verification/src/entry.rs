//! The entry model: one filesystem entry (name, kind, size) and a snapshot of
//! the terminal dimensions.

use vstd::prelude::*;

use crate::digits::dec_str;
use crate::digits::u64_to_string;

verus! {

/// How many times a byte count is divided by 1024 before it drops under 1024,
/// saturated at 4 (the `tb` unit): the unit index of the rendered size.
pub open spec fn unit_count(size: nat) -> nat {
    if size < 1024 {
        0
    } else if size < 1048576 {
        1
    } else if size < 1073741824 {
        2
    } else if size < 1099511627776 {
        3
    } else {
        4
    }
}

/// `1024^count`: what the byte count is divided by for unit index `count`.
pub open spec fn unit_divisor(count: nat) -> nat {
    if count == 0 {
        1
    } else if count == 1 {
        1024
    } else if count == 2 {
        1048576
    } else if count == 3 {
        1073741824
    } else {
        1099511627776
    }
}

/// The unit label appended to a rendered size, with its single leading space.
pub open spec fn unit_suffix(count: nat) -> Seq<char> {
    if count == 0 {
        " bytes"@
    } else if count == 1 {
        " kb"@
    } else if count == 2 {
        " mb"@
    } else if count == 3 {
        " gb"@
    } else {
        " tb"@
    }
}

/// The scaled size in hundredths of its unit, rounded half away from zero:
/// `round(size * 100 / 1024^count)` where `count` is the unit index.
pub open spec fn hundredths(size: nat) -> nat {
    (size * 100 + unit_divisor(unit_count(size)) / 2) / unit_divisor(unit_count(size))
}

/// The numeric part of a rendered size, from a value in hundredths: the
/// integer part, then up to two fractional digits with trailing zeros (and a
/// bare trailing dot) dropped.
pub open spec fn value_str(h: nat) -> Seq<char> {
    let f = h % 100;
    if f == 0 {
        dec_str(h / 100)
    } else if f % 10 == 0 {
        dec_str(h / 100) + "."@ + dec_str(f / 10)
    } else if f < 10 {
        dec_str(h / 100) + "."@ + "0"@ + dec_str(f)
    } else {
        dec_str(h / 100) + "."@ + dec_str(f)
    }
}

/// The rendered size of an entry: a placeholder for anything but a plain
/// file, else the scaled and rounded value followed by its unit.
pub open spec fn size_string(size: nat, kind: FileType) -> Seq<char> {
    if kind == FileType::File {
        value_str(hundredths(size)) + unit_suffix(unit_count(size))
    } else {
        "..."@
    }
}

/// The unit of a rendered size never rises beyond `tb`, however large the
/// byte count: the unit index saturates at 4, and the rendered size is always
/// the scaled value followed by one of the five unit labels.
pub proof fn lemma_size_unit_capped(size: nat)
    ensures
        unit_count(size) <= 4,
        size_string(size, FileType::File) == value_str(hundredths(size)) + unit_suffix(
            unit_count(size),
        ),
{
}

/// A snapshot of the terminal dimensions, queried once at startup and treated
/// as constant for the run.
pub struct CustomTerminal {
    pub width: u16,
    pub height: u16,
}

impl CustomTerminal {
    pub fn new(width: u16, height: u16) -> (t: CustomTerminal)
        ensures
            t.width == width,
            t.height == height,
    {
        Self { width, height }
    }
}

/// The kind of a filesystem entry, fixed at creation from one metadata read.
#[derive(Debug, Clone, PartialEq, Eq, Structural)]
pub enum FileType {
    File,
    Directory,
    Link,
}

/// One directory entry: its name, its kind, and its size in bytes (the size
/// is meaningful only when the kind is `File`).
#[derive(Debug, Clone)]
pub struct File {
    pub name: String,
    pub file_type: FileType,
    pub size: u64,
}

impl File {
    pub fn new(name: String, file_type: FileType, size: u64) -> (f: File)
        ensures
            f.name == name,
            f.file_type == file_type,
            f.size == size,
    {
        Self { name, file_type, size }
    }
}

/// `j` is the position of the last `.` in `name`.
pub open spec fn is_last_dot(name: Seq<char>, j: int) -> bool {
    &&& 0 <= j < name.len()
    &&& name[j] == '.'
    &&& forall|k: int| j < k < name.len() ==> name[k] != '.'
}

/// `name` contains a `.` (every non-empty set of dot positions has a last one).
pub open spec fn has_dot(name: Seq<char>) -> bool {
    exists|j: int| is_last_dot(name, j)
}

/// The dot-delimited suffix of a name: the characters after the last `.`, or
/// the whole name when it has no `.` at all (so suffix extraction never fails).
pub open spec fn suffix_of(name: Seq<char>) -> Seq<char> {
    if has_dot(name) {
        let j = choose|j: int| is_last_dot(name, j);
        name.subrange(j + 1, name.len() as int)
    } else {
        name
    }
}

/// A plain file's name is highlighted exactly when its suffix is `exe`.
pub open spec fn exe_highlighted(name: Seq<char>) -> bool {
    suffix_of(name) == "exe"@
}

/// The colorized display form of a name: directories are wrapped in the blue
/// escape sequence, files with an `exe` suffix in the yellow/green one, and
/// everything else is the raw name, unmodified.
pub open spec fn rendered_name(name: Seq<char>, kind: FileType) -> Seq<char> {
    match kind {
        FileType::Directory => "\x1b[34m"@ + name + "\x1b[0m"@,
        FileType::File => if exe_highlighted(name) {
            "\x1b[33;32m"@ + name + "\x1b[0m"@
        } else {
            name
        },
        FileType::Link => name,
    }
}

/// The literal label of each entry kind.
pub open spec fn kind_string(kind: FileType) -> Seq<char> {
    match kind {
        FileType::File => "File"@,
        FileType::Directory => "Directory"@,
        FileType::Link => "Link"@,
    }
}

proof fn lemma_last_dot_unique(name: Seq<char>, j1: int, j2: int)
    requires
        is_last_dot(name, j1),
        is_last_dot(name, j2),
    ensures
        j1 == j2,
{
    if j1 < j2 {
        assert(name[j2] != '.');
    }
    if j2 < j1 {
        assert(name[j1] != '.');
    }
}

/// The position just past the last `.` of `name`, or 0 when there is none:
/// the start of the name's suffix.
fn suffix_start(name: &str) -> (start: usize)
    ensures
        start <= name@.len(),
        suffix_of(name@) == name@.subrange(start as int, name@.len() as int),
{
    let len = name.unicode_len();
    let mut i: usize = len;
    loop
        invariant
            i <= len,
            len == name@.len(),
            forall|k: int| i <= k < len ==> name@[k] != '.',
        decreases i,
    {
        if i == 0 {
            proof {
                assert(!has_dot(name@)) by {
                    if has_dot(name@) {
                        let j = choose|j: int| is_last_dot(name@, j);
                        assert(name@[j] != '.');
                    }
                }
                assert(name@.subrange(0, name@.len() as int) =~= name@);
            }
            return 0;
        }
        if name.get_char(i - 1) == '.' {
            proof {
                assert(is_last_dot(name@, i - 1));
                let j = choose|j: int| is_last_dot(name@, j);
                lemma_last_dot_unique(name@, j, i - 1);
            }
            return i;
        }
        i = i - 1;
    }
}

/// Whether the suffix of `name` is exactly `exe`.
fn name_has_exe_suffix(name: &str) -> (b: bool)
    ensures
        b == exe_highlighted(name@),
{
    proof {
        reveal_strlit("exe");
    }
    let len = name.unicode_len();
    let start = suffix_start(name);
    let ghost suffix = name@.subrange(start as int, len as int);
    if len - start != 3 {
        proof {
            assert(suffix.len() != 3);
        }
        return false;
    }
    if name.get_char(start) != 'e' {
        proof {
            assert(suffix[0] != 'e');
        }
        return false;
    }
    if name.get_char(start + 1) != 'x' {
        proof {
            assert(suffix[1] != 'x');
        }
        return false;
    }
    if name.get_char(start + 2) != 'e' {
        proof {
            assert(suffix[2] != 'e');
        }
        return false;
    }
    proof {
        assert(suffix =~= "exe"@);
    }
    true
}

impl File {
    /// The colorized display form of this entry's name.
    pub fn show_name(&self) -> (r: String)
        ensures
            r@ == rendered_name(self.name@, self.file_type),
    {
        match self.file_type {
            FileType::Directory => {
                let mut s = "\x1b[34m".to_owned();
                s.append(self.name.as_str());
                s.append("\x1b[0m");
                proof {
                    assert(s@ =~= "\x1b[34m"@ + self.name@ + "\x1b[0m"@);
                }
                s
            },
            FileType::File => {
                if name_has_exe_suffix(self.name.as_str()) {
                    let mut s = "\x1b[33;32m".to_owned();
                    s.append(self.name.as_str());
                    s.append("\x1b[0m");
                    proof {
                        assert(s@ =~= "\x1b[33;32m"@ + self.name@ + "\x1b[0m"@);
                    }
                    s
                } else {
                    self.name.clone()
                }
            },
            FileType::Link => self.name.clone(),
        }
    }

    /// The rendered size of this entry: for a plain file, the byte count
    /// scaled by 1024 steps (unit index saturating at `tb`), rounded half away
    /// from zero to two decimal places, with trailing fractional zeros
    /// dropped; a `...` placeholder for anything else.
    pub fn show_size(&self) -> (r: String)
        ensures
            r@ == size_string(self.size as nat, self.file_type),
    {
        match self.file_type {
            FileType::File => {
                let size = self.size;
                let ghost c = unit_count(size as nat);
                let div: u64 = if size < 1024 {
                    1
                } else if size < 1048576 {
                    1024
                } else if size < 1073741824 {
                    1048576
                } else if size < 1099511627776 {
                    1073741824
                } else {
                    1099511627776
                };
                proof {
                    assert(div as nat == unit_divisor(c));
                    vstd::arithmetic::div_mod::lemma_mod_division_less_than_divisor(
                        size as int,
                        div as int,
                    );
                    if size >= 1099511627776 {
                        vstd::arithmetic::div_mod::lemma_div_is_ordered(
                            size as int,
                            u64::MAX as int,
                            div as int,
                        );
                    } else {
                        vstd::arithmetic::div_mod::lemma_multiply_divide_lt(
                            size as int,
                            div as int,
                            1024,
                        );
                    }
                }
                let q = size / div;
                let rem = size % div;
                proof {
                    vstd::arithmetic::div_mod::lemma_div_nonincreasing(
                        (rem * 100 + div / 2) as int,
                        div as int,
                    );
                }
                let frac = (rem * 100 + div / 2) / div;
                let h = q * 100 + frac;
                proof {
                    vstd::arithmetic::div_mod::lemma_fundamental_div_mod(size as int, div as int);
                    assert(size * 100 + div / 2 == (rem * 100 + div / 2) + (q * 100) * div)
                        by (nonlinear_arith)
                        requires
                            size == div * q + rem,
                    ;
                    vstd::arithmetic::div_mod::lemma_hoist_over_denominator(
                        (rem * 100 + div / 2) as int,
                        (q * 100) as int,
                        div as nat,
                    );
                    assert(h as nat == hundredths(size as nat));
                }
                let int_part = h / 100;
                let f = h % 100;
                let mut s = u64_to_string(int_part);
                if f != 0 {
                    s.append(".");
                    if f % 10 == 0 {
                        let d = u64_to_string(f / 10);
                        s.append(d.as_str());
                    } else {
                        if f < 10 {
                            s.append("0");
                        }
                        let d = u64_to_string(f);
                        s.append(d.as_str());
                    }
                }
                proof {
                    assert(s@ =~= value_str(h as nat));
                }
                if div == 1 {
                    s.append(" bytes");
                } else if div == 1024 {
                    s.append(" kb");
                } else if div == 1048576 {
                    s.append(" mb");
                } else if div == 1073741824 {
                    s.append(" gb");
                } else {
                    s.append(" tb");
                }
                proof {
                    assert(s@ =~= size_string(self.size as nat, self.file_type));
                }
                s
            },
            FileType::Directory => "...".to_owned(),
            FileType::Link => "...".to_owned(),
        }
    }

    /// The literal label of this entry's kind.
    pub fn show_filetype(&self) -> (r: String)
        ensures
            r@ == kind_string(self.file_type),
    {
        match self.file_type {
            FileType::File => "File".to_owned(),
            FileType::Directory => "Directory".to_owned(),
            FileType::Link => "Link".to_owned(),
        }
    }
}

/// The kind an entry gets from its metadata: the directory check comes first,
/// then the symlink check, and a plain file is the default.
pub open spec fn spec_classify(is_dir: bool, is_symlink: bool) -> FileType {
    if is_dir {
        FileType::Directory
    } else if is_symlink {
        FileType::Link
    } else {
        FileType::File
    }
}

/// The shared name-column width for a listing: the longest display width
/// among the entries' names, with a floor of 10 so that narrow listings still
/// get a reasonable column width.
pub open spec fn spec_max_name_len(files: Seq<File>) -> nat
    decreases files.len(),
{
    if files.len() == 0 {
        10
    } else {
        let rest = spec_max_name_len(files.drop_last());
        if files.last().name@.len() >= rest {
            files.last().name@.len()
        } else {
            rest
        }
    }
}

/// The name-column width is at least its floor of 10 and accommodates every
/// name in the listing.
pub proof fn lemma_max_name_len_bounds(files: Seq<File>)
    ensures
        spec_max_name_len(files) >= 10,
        forall|i: int| 0 <= i < files.len() ==> files[i].name@.len() <= spec_max_name_len(files),
    decreases files.len(),
{
    if files.len() > 0 {
        lemma_max_name_len_bounds(files.drop_last());
        assert forall|i: int| 0 <= i < files.len() implies files[i].name@.len()
            <= spec_max_name_len(files) by {
            if i < files.len() - 1 {
                assert(files.drop_last()[i] == files[i]);
                assert(files.drop_last()[i].name@.len() <= spec_max_name_len(files.drop_last()));
            } else {
                assert(files[i] == files.last());
            }
        }
    }
}

/// The floor is exact: a listing whose names are all shorter than 10
/// characters still gets a name-column width of exactly 10.
pub proof fn lemma_max_name_len_floor(files: Seq<File>)
    requires
        forall|i: int| 0 <= i < files.len() ==> files[i].name@.len() < 10,
    ensures
        spec_max_name_len(files) == 10,
    decreases files.len(),
{
    if files.len() > 0 {
        assert(forall|i: int|
            0 <= i < files.len() - 1 ==> files[i] == #[trigger] files.drop_last()[i]);
        lemma_max_name_len_floor(files.drop_last());
    }
}

/// The longest display width among the entries' names, floored at 10.
pub fn max_name_len(files: &Vec<File>) -> (w: usize)
    ensures
        w as nat == spec_max_name_len(files@),
{
    let mut w: usize = 10;
    let mut i: usize = 0;
    proof {
        assert(files@.subrange(0, 0) =~= Seq::<File>::empty());
    }
    while i < files.len()
        invariant
            i <= files@.len(),
            w as nat == spec_max_name_len(files@.subrange(0, i as int)),
        decreases files@.len() - i,
    {
        let l = files[i].name.as_str().unicode_len();
        if l >= w {
            w = l;
        }
        proof {
            let pre = files@.subrange(0, i as int);
            let cur = files@.subrange(0, i + 1 as int);
            assert(cur.drop_last() =~= pre);
            assert(cur.last() == files@[i as int]);
        }
        i = i + 1;
    }
    proof {
        assert(files@.subrange(0, files@.len() as int) =~= files@);
    }
    w
}

/// Classify an entry from the two metadata flags that decide its kind.
pub fn classify(is_dir: bool, is_symlink: bool) -> (k: FileType)
    ensures
        k == spec_classify(is_dir, is_symlink),
{
    if is_dir {
        FileType::Directory
    } else if is_symlink {
        FileType::Link
    } else {
        FileType::File
    }
}

} // verus!
