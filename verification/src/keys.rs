//! Identity keys for pinned entries.
//!
//! Entries are matched across sessions by a case-insensitive key derived
//! from the launch target's path, its argument string and its working
//! directory, never by array position. Paths and text travel through the
//! engine as byte strings.

use vstd::prelude::*;

verus! {

/// Separator between the path, argument and working-directory parts of a key.
pub const KEY_SEPARATOR: u8 = 124;

pub open spec fn is_ascii_upper(b: u8) -> bool {
    65 <= b && b <= 90
}

/// The ASCII-lowercase image of one byte.
pub open spec fn lower_byte(b: u8) -> u8 {
    if is_ascii_upper(b) {
        (b + 32) as u8
    } else {
        b
    }
}

/// The ASCII-lowercase image of a byte string.
pub open spec fn lower_bytes(s: Seq<u8>) -> Seq<u8> {
    s.map_values(|b: u8| lower_byte(b))
}

/// ASCII whitespace: space, tab, line feed, vertical tab, form feed,
/// carriage return.
pub open spec fn is_ascii_space(b: u8) -> bool {
    b == 32 || (9 <= b && b <= 13)
}

pub open spec fn trim_front(s: Seq<u8>) -> Seq<u8>
    decreases s.len(),
{
    if s.len() > 0 && is_ascii_space(s[0]) {
        trim_front(s.drop_first())
    } else {
        s
    }
}

pub open spec fn trim_back(s: Seq<u8>) -> Seq<u8>
    decreases s.len(),
{
    if s.len() > 0 && is_ascii_space(s.last()) {
        trim_back(s.drop_last())
    } else {
        s
    }
}

/// A byte string with leading and trailing ASCII whitespace removed.
pub open spec fn trimmed(s: Seq<u8>) -> Seq<u8> {
    trim_back(trim_front(s))
}

/// An optional byte string, absent meaning empty.
pub open spec fn opt_seq(o: Option<Seq<u8>>) -> Seq<u8> {
    match o {
        Option::Some(s) => s,
        Option::None => Seq::empty(),
    }
}

/// The view of an optional owned byte string.
pub open spec fn opt_owned(o: Option<Vec<u8>>) -> Option<Seq<u8>> {
    match o {
        Option::Some(v) => Option::Some(v@),
        Option::None => Option::None,
    }
}

/// The view of an optional byte-string reference.
pub open spec fn opt_view(o: Option<&Vec<u8>>) -> Option<Seq<u8>> {
    match o {
        Option::Some(v) => Option::Some(v@),
        Option::None => Option::None,
    }
}

/// The identity key of a launch target: lowercased path, trimmed argument
/// string and lowercased working directory, separated by `|`. Entries with
/// equal keys are the same logical pin.
pub open spec fn launch_key(path: Seq<u8>, args: Option<Seq<u8>>, working_dir: Option<Seq<u8>>) -> Seq<u8> {
    lower_bytes(path) + seq![KEY_SEPARATOR] + trimmed(opt_seq(args)) + seq![KEY_SEPARATOR]
        + lower_bytes(opt_seq(working_dir))
}

/// Lowercases a byte string in ASCII.
pub fn ascii_lowercase_bytes(s: &Vec<u8>) -> (r: Vec<u8>)
    ensures
        r@ == lower_bytes(s@),
{
    let mut r: Vec<u8> = Vec::new();
    let mut i: usize = 0;
    while i < s.len()
        invariant
            i <= s.len(),
            r@ == lower_bytes(s@.take(i as int)),
        decreases s.len() - i,
    {
        let b = s[i];
        let lb = if 65 <= b && b <= 90 {
            b + 32
        } else {
            b
        };
        r.push(lb);
        i = i + 1;
        proof {
            assert(s@.take(i as int) == s@.take(i - 1).push(s@[i - 1]));
            assert(lower_bytes(s@.take(i as int)) =~= lower_bytes(s@.take(i - 1)).push(
                lower_byte(s@[i - 1]),
            ));
        }
    }
    proof {
        assert(s@.take(s@.len() as int) == s@);
    }
    r
}

/// The case-normalized comparison form of a path.
pub fn normalize_path_key(path: &Vec<u8>) -> (r: Vec<u8>)
    ensures
        r@ == lower_bytes(path@),
{
    ascii_lowercase_bytes(path)
}

proof fn lemma_trim_front_is_subrange(s: Seq<u8>, k: int)
    requires
        0 <= k <= s.len(),
        forall|j: int| 0 <= j < k ==> is_ascii_space(s[j]),
        k < s.len() ==> !is_ascii_space(s[k]),
    ensures
        trim_front(s) == s.subrange(k, s.len() as int),
    decreases k,
{
    if k == 0 {
        assert(s.subrange(0, s.len() as int) =~= s);
    } else {
        assert(is_ascii_space(s[0]));
        lemma_trim_front_is_subrange(s.drop_first(), k - 1);
        assert(s.drop_first().subrange(k - 1, s.drop_first().len() as int) =~= s.subrange(
            k,
            s.len() as int,
        ));
    }
}

proof fn lemma_trim_back_is_subrange(s: Seq<u8>, k: int)
    requires
        0 <= k <= s.len(),
        forall|j: int| k <= j < s.len() ==> is_ascii_space(s[j]),
        k > 0 ==> !is_ascii_space(s[k - 1]),
    ensures
        trim_back(s) == s.subrange(0, k),
    decreases s.len(),
{
    if k == s.len() {
        assert(s.subrange(0, s.len() as int) =~= s);
    } else {
        assert(is_ascii_space(s.last()));
        lemma_trim_back_is_subrange(s.drop_last(), k);
        assert(s.drop_last().subrange(0, k) =~= s.subrange(0, k));
    }
}

/// Decides [`is_ascii_space`].
pub fn is_space_byte(b: u8) -> (r: bool)
    ensures
        r == is_ascii_space(b),
{
    b == 32 || (9 <= b && b <= 13)
}

/// Removes leading and trailing ASCII whitespace.
pub fn trim_bytes(s: &Vec<u8>) -> (r: Vec<u8>)
    ensures
        r@ == trimmed(s@),
{
    let n = s.len();
    let mut lo: usize = 0;
    while lo < n && is_space_byte(s[lo])
        invariant
            lo <= n,
            n == s@.len(),
            forall|j: int| 0 <= j < lo ==> is_ascii_space(s@[j]),
        decreases n - lo,
    {
        lo = lo + 1;
    }
    let mut hi: usize = n;
    while hi > lo && is_space_byte(s[hi - 1])
        invariant
            lo <= hi <= n,
            n == s@.len(),
            forall|j: int| 0 <= j < lo ==> is_ascii_space(s@[j]),
            forall|j: int| hi <= j < n ==> is_ascii_space(s@[j]),
        decreases hi,
    {
        hi = hi - 1;
    }
    let mut r: Vec<u8> = Vec::new();
    let mut i: usize = lo;
    while i < hi
        invariant
            lo <= i <= hi <= n,
            n == s@.len(),
            r@ == s@.subrange(lo as int, i as int),
        decreases hi - i,
    {
        r.push(s[i]);
        i = i + 1;
        proof {
            assert(s@.subrange(lo as int, i as int) =~= s@.subrange(lo as int, i - 1).push(
                s@[i - 1],
            ));
        }
    }
    proof {
        lemma_trim_front_is_subrange(s@, lo as int);
        let t = s@.subrange(lo as int, n as int);
        lemma_trim_back_is_subrange(t, hi - lo);
        assert(t.subrange(0, hi - lo) =~= s@.subrange(lo as int, hi as int));
    }
    r
}

/// The identity key of a launch target; see [`launch_key`].
pub fn normalize_launch_key(path: &Vec<u8>, args: Option<&Vec<u8>>, working_dir: Option<&Vec<u8>>) -> (r: Vec<u8>)
    ensures
        r@ == launch_key(path@, opt_view(args), opt_view(working_dir)),
{
    let mut r = ascii_lowercase_bytes(path);
    r.push(KEY_SEPARATOR);
    let mut trimmed_args = match args {
        Option::Some(a) => trim_bytes(a),
        Option::None => Vec::new(),
    };
    proof {
        assert(trimmed(Seq::<u8>::empty()) =~= Seq::<u8>::empty());
    }
    r.append(&mut trimmed_args);
    r.push(KEY_SEPARATOR);
    let mut wd = match working_dir {
        Option::Some(w) => ascii_lowercase_bytes(w),
        Option::None => Vec::new(),
    };
    proof {
        assert(lower_bytes(Seq::<u8>::empty()) =~= Seq::<u8>::empty());
    }
    r.append(&mut wd);
    proof {
        assert(r@ =~= launch_key(path@, opt_view(args), opt_view(working_dir)));
    }
    r
}

/// A path separator byte: `/` or `\`.
pub open spec fn is_sep(b: u8) -> bool {
    b == 47 || b == 92
}

/// The part of a path after its last separator; empty when the path ends
/// in a separator.
pub open spec fn file_name_of(p: Seq<u8>) -> Seq<u8>
    decreases p.len(),
{
    if p.len() == 0 {
        p
    } else if is_sep(p.last()) {
        Seq::empty()
    } else {
        file_name_of(p.drop_last()).push(p.last())
    }
}

/// The index of the last `.` in a file name, or -1 if there is none.
pub open spec fn last_dot_index(name: Seq<u8>) -> int
    decreases name.len(),
{
    if name.len() == 0 {
        -1
    } else if name.last() == 46 {
        name.len() - 1
    } else {
        last_dot_index(name.drop_last())
    }
}

/// The stem of a file name: everything before the last `.`, or the whole
/// name when there is no `.` past the first byte.
pub open spec fn stem_of(name: Seq<u8>) -> Seq<u8> {
    let d = last_dot_index(name);
    if d <= 0 {
        name
    } else {
        name.subrange(0, d)
    }
}

/// The extension of a file name: everything after the last `.`, absent
/// when there is no `.` past the first byte.
pub open spec fn ext_of(name: Seq<u8>) -> Option<Seq<u8>> {
    let d = last_dot_index(name);
    if d <= 0 {
        Option::None
    } else {
        Option::Some(name.subrange(d + 1, name.len() as int))
    }
}

pub open spec fn path_stem(p: Seq<u8>) -> Seq<u8> {
    stem_of(file_name_of(p))
}

pub open spec fn path_ext(p: Seq<u8>) -> Option<Seq<u8>> {
    ext_of(file_name_of(p))
}

/// The display name a pin falls back to: the trimmed file stem of its
/// path, absent when that is empty.
pub open spec fn default_name_of(p: Seq<u8>) -> Option<Seq<u8>> {
    if trimmed(path_stem(p)).len() == 0 {
        Option::None
    } else {
        Option::Some(trimmed(path_stem(p)))
    }
}

/// Whether a path names a shortcut file (`.lnk`, case-insensitively).
pub open spec fn is_shortcut_path(p: Seq<u8>) -> bool {
    match path_ext(p) {
        Option::Some(e) => lower_bytes(e) == seq![108u8, 110u8, 107u8],
        Option::None => false,
    }
}

/// Whether a path may be pinned: any directory, or a file whose extension
/// is `exe` or `lnk`, case-insensitively.
pub open spec fn supported_app_path(p: Seq<u8>, is_dir: bool) -> bool {
    is_dir || match path_ext(p) {
        Option::Some(e) => lower_bytes(e) == seq![101u8, 120u8, 101u8] || lower_bytes(e) == seq![
            108u8,
            110u8,
            107u8,
        ],
        Option::None => false,
    }
}

/// Decides [`is_sep`].
pub fn is_sep_byte(b: u8) -> (r: bool)
    ensures
        r == is_sep(b),
{
    b == 47 || b == 92
}

proof fn lemma_file_name_subrange(p: Seq<u8>, k: int)
    requires
        0 <= k <= p.len(),
        forall|j: int| k <= j < p.len() ==> !is_sep(p[j]),
        k > 0 ==> is_sep(p[k - 1]),
    ensures
        file_name_of(p) == p.subrange(k, p.len() as int),
    decreases p.len(),
{
    if k == p.len() {
        if p.len() == 0 {
            assert(p.subrange(0, 0) =~= p);
        } else {
            assert(p.subrange(k, p.len() as int) =~= Seq::<u8>::empty());
        }
    } else {
        assert(!is_sep(p.last()));
        lemma_file_name_subrange(p.drop_last(), k);
        assert(p.subrange(k, p.len() as int) =~= p.drop_last().subrange(
            k,
            p.len() - 1,
        ).push(p.last()));
    }
}

proof fn lemma_last_dot(name: Seq<u8>, d: int)
    requires
        0 <= d <= name.len(),
        forall|j: int| d <= j < name.len() ==> name[j] != 46,
        d > 0 ==> name[d - 1] == 46,
    ensures
        last_dot_index(name) == d - 1,
    decreases name.len(),
{
    if name.len() == 0 {
    } else if d == name.len() {
        assert(name.last() == 46);
    } else {
        assert(name.last() != 46);
        lemma_last_dot(name.drop_last(), d);
    }
}

/// Copies `v[lo..hi]`.
pub fn bytes_subrange(v: &Vec<u8>, lo: usize, hi: usize) -> (r: Vec<u8>)
    requires
        lo <= hi <= v@.len(),
    ensures
        r@ == v@.subrange(lo as int, hi as int),
{
    let mut r: Vec<u8> = Vec::new();
    let mut i: usize = lo;
    while i < hi
        invariant
            lo <= i <= hi <= v@.len(),
            r@ == v@.subrange(lo as int, i as int),
        decreases hi - i,
    {
        r.push(v[i]);
        i = i + 1;
        proof {
            assert(v@.subrange(lo as int, i as int) =~= v@.subrange(lo as int, i - 1).push(
                v@[i - 1],
            ));
        }
    }
    r
}

/// Copies a byte string.
pub fn bytes_copy(v: &Vec<u8>) -> (r: Vec<u8>)
    ensures
        r@ == v@,
{
    let r = bytes_subrange(v, 0, v.len());
    proof {
        assert(v@.subrange(0, v@.len() as int) =~= v@);
    }
    r
}

/// Copies an optional byte string.
pub fn opt_bytes_copy(o: &Option<Vec<u8>>) -> (r: Option<Vec<u8>>)
    ensures
        opt_owned(r) == opt_owned(*o),
{
    match o {
        Option::Some(v) => Option::Some(bytes_copy(v)),
        Option::None => Option::None,
    }
}

/// Compares two byte strings for equality.
pub fn bytes_eq(a: &Vec<u8>, b: &Vec<u8>) -> (r: bool)
    ensures
        r == (a@ == b@),
{
    if a.len() != b.len() {
        return false;
    }
    let mut i: usize = 0;
    while i < a.len()
        invariant
            i <= a.len(),
            a@.len() == b@.len(),
            forall|j: int| 0 <= j < i ==> a@[j] == b@[j],
        decreases a.len() - i,
    {
        if a[i] != b[i] {
            return false;
        }
        i = i + 1;
    }
    proof {
        assert(a@ =~= b@);
    }
    true
}

/// The part of a path after its last separator.
pub fn file_name_bytes(p: &Vec<u8>) -> (r: Vec<u8>)
    ensures
        r@ == file_name_of(p@),
{
    let mut k: usize = p.len();
    while k > 0 && !is_sep_byte(p[k - 1])
        invariant
            k <= p@.len(),
            forall|j: int| k <= j < p@.len() ==> !is_sep(p@[j]),
        decreases k,
    {
        k = k - 1;
    }
    proof {
        lemma_file_name_subrange(p@, k as int);
    }
    bytes_subrange(p, k, p.len())
}

/// The file stem of a path; see [`path_stem`].
pub fn path_file_stem(p: &Vec<u8>) -> (r: Vec<u8>)
    ensures
        r@ == path_stem(p@),
{
    let name = file_name_bytes(p);
    let mut d: usize = name.len();
    while d > 0 && name[d - 1] != 46
        invariant
            d <= name@.len(),
            forall|j: int| d <= j < name@.len() ==> name@[j] != 46,
        decreases d,
    {
        d = d - 1;
    }
    proof {
        lemma_last_dot(name@, d as int);
    }
    if d <= 1 {
        name
    } else {
        bytes_subrange(&name, 0, d - 1)
    }
}

/// The extension of a path; see [`path_ext`].
pub fn path_extension(p: &Vec<u8>) -> (r: Option<Vec<u8>>)
    ensures
        r is Some <==> path_ext(p@) is Some,
        r matches Some(e) ==> path_ext(p@) == Option::Some(e@),
{
    let name = file_name_bytes(p);
    let mut d: usize = name.len();
    while d > 0 && name[d - 1] != 46
        invariant
            d <= name@.len(),
            forall|j: int| d <= j < name@.len() ==> name@[j] != 46,
        decreases d,
    {
        d = d - 1;
    }
    proof {
        lemma_last_dot(name@, d as int);
    }
    if d <= 1 {
        Option::None
    } else {
        Option::Some(bytes_subrange(&name, d, name.len()))
    }
}

/// The default display name of a pin; see [`default_name_of`].
pub fn default_display_name(p: &Vec<u8>) -> (r: Option<Vec<u8>>)
    ensures
        r is Some <==> default_name_of(p@) is Some,
        r matches Some(v) ==> default_name_of(p@) == Option::Some(v@),
{
    let stem = path_file_stem(p);
    normalize_text_opt(&stem)
}

/// Whether a path names a shortcut file; see [`is_shortcut_path`].
pub fn is_lnk_path(p: &Vec<u8>) -> (r: bool)
    ensures
        r == is_shortcut_path(p@),
{
    match path_extension(p) {
        Option::Some(e) => {
            let low = ascii_lowercase_bytes(&e);
            let mut lnk: Vec<u8> = Vec::new();
            lnk.push(108);
            lnk.push(110);
            lnk.push(107);
            proof {
                assert(lnk@ =~= seq![108u8, 110u8, 107u8]);
            }
            bytes_eq(&low, &lnk)
        },
        Option::None => false,
    }
}

/// Whether a path may be pinned; see [`supported_app_path`]. The caller
/// supplies whether the path is a directory.
pub fn is_supported_app_path(p: &Vec<u8>, is_dir: bool) -> (r: bool)
    ensures
        r == supported_app_path(p@, is_dir),
{
    if is_dir {
        return true;
    }
    match path_extension(p) {
        Option::Some(e) => {
            let low = ascii_lowercase_bytes(&e);
            let mut exe: Vec<u8> = Vec::new();
            exe.push(101);
            exe.push(120);
            exe.push(101);
            let mut lnk: Vec<u8> = Vec::new();
            lnk.push(108);
            lnk.push(110);
            lnk.push(107);
            proof {
                assert(exe@ =~= seq![101u8, 120u8, 101u8]);
                assert(lnk@ =~= seq![108u8, 110u8, 107u8]);
            }
            let is_exe = bytes_eq(&low, &exe);
            let is_lnk = bytes_eq(&low, &lnk);
            is_exe || is_lnk
        },
        Option::None => false,
    }
}

/// Trims a text; an all-whitespace or empty text normalizes to absent.
pub fn normalize_text_opt(text: &Vec<u8>) -> (r: Option<Vec<u8>>)
    ensures
        trimmed(text@).len() == 0 ==> r is None,
        trimmed(text@).len() > 0 ==> (r matches Some(v) && v@ == trimmed(text@)),
{
    let t = trim_bytes(text);
    if t.len() == 0 {
        Option::None
    } else {
        Option::Some(t)
    }
}

} // verus!
