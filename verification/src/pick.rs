//! The desktop picker: its rows, its selection and notices, and the
//! fixed-width text it is drawn with.
use vstd::pervasive::VecAdditionalExecFns;
use vstd::prelude::*;
use vstd::string::StringExecFns;

use crate::launch::{LaunchOutcome, RuntimePaths};
use crate::parse::{Desktop, DesktopConfig, DesktopMode, first_desktop_at};
use crate::registry::InstanceRecord;
use crate::text::{
    ascii_lowercase, key_lt, chars_of, contains, control, has_infix, is_control, is_space, join2, join3,
    push_char, same_text, space, string_of, to_ascii_lower,
};

verus! {

// ---------------------------------------------------------------------------
// Terminal cell widths.
// ---------------------------------------------------------------------------
/// What `UnicodeWidthStr::width` gives for text that is not plain: the
/// columns a string takes.
pub uninterp spec fn display_width(s: Seq<char>) -> usize;

/// What `UnicodeWidthChar::width` gives for a character that is neither a
/// control character nor plain: the columns it takes.
pub uninterp spec fn char_columns(c: char) -> Option<usize>;

/// A printable ASCII character or the ellipsis `…`: one column each.
pub open spec fn plain_char(c: char) -> bool {
    (' ' <= c && c <= '~') || c == '…'
}

/// Text made only of plain characters.
pub open spec fn plain(s: Seq<char>) -> bool {
    forall|i: int| 0 <= i < s.len() ==> plain_char(#[trigger] s[i])
}

/// The columns a string takes: one per character for plain text, the named
/// width otherwise.
pub open spec fn columns(s: Seq<char>) -> usize {
    if plain(s) {
        s.len() as usize
    } else {
        display_width(s)
    }
}

/// The columns a character takes: none for a control character, one for a
/// plain character, the named width otherwise.
pub open spec fn char_cols(c: char) -> Option<usize> {
    if c < ' ' || ('\x7f' <= c && c < '\u{a0}') {
        None
    } else if plain_char(c) {
        Some(1usize)
    } else {
        char_columns(c)
    }
}

/// `UnicodeWidthStr::width(s)`.
///
/// Trusted: the result is `columns(s)` as stated. The crate folds the characters from
/// the right (lookup.rs `str_width`); a character up to U+00A0 other than a
/// line break counts one column and leaves the default state, and U+2026
/// `…` (width 1 in the crate's table, no special state) does the same, so
/// plain text takes one column per character (the sum wraps as the crate's
/// does); other text is the named width `display_width(s)`.
#[verifier::external_body]
pub(crate) fn str_width(s: &str) -> (w: usize)
    ensures
        w == if plain(s@) {
            s@.len() as usize
        } else {
            display_width(s@)
        },
{
    unicode_width::UnicodeWidthStr::width(s)
}

/// `UnicodeWidthChar::width(c)`.
///
/// Trusted: the result is `char_cols(c)` as stated. The crate's `single_char_width`
/// answers `None` exactly for U+0000..U+001F and U+007F..U+009F, `Some(1)`
/// for the rest of ASCII, and its table gives U+2026 `…` one column; other
/// characters get the named width `char_columns(c)`.
#[verifier::external_body]
pub(crate) fn char_width(c: char) -> (w: Option<usize>)
    ensures
        w == if c < ' ' || ('\x7f' <= c && c < '\u{a0}') {
            None
        } else if plain_char(c) {
            Some(1usize)
        } else {
            char_columns(c)
        },
{
    unicode_width::UnicodeWidthChar::width(c)
}

/// A character's columns, counting a control character as zero.
pub open spec fn cells_of(c: char) -> nat {
    match char_cols(c) {
        Some(w) => w as nat,
        None => 0,
    }
}

/// The columns of `s` counted character by character.
pub open spec fn cells(s: Seq<char>) -> nat
    decreases s.len(),
{
    if s.len() == 0 {
        0
    } else {
        cells(s.drop_last()) + cells_of(s.last())
    }
}

/// The width of the ellipsis that marks a cut.
pub open spec fn ellipsis_cells() -> nat {
    match char_cols('…') {
        Some(w) => w as nat,
        None => 1,
    }
}

/// `k` is where a cut to `available` columns stops: the first character that
/// would not fit.
pub open spec fn first_overflow_at(s: Seq<char>, available: nat, k: int) -> bool {
    0 <= k < s.len() && cells(s.take(k + 1)) > available && forall|j: int|
        0 <= j < k ==> cells(#[trigger] s.take(j + 1)) <= available
}

/// How many leading characters of `s` fit in `available` columns.
pub open spec fn fit_len(s: Seq<char>, available: nat) -> int {
    if exists|k: int| first_overflow_at(s, available, k) {
        choose|k: int| first_overflow_at(s, available, k)
    } else {
        s.len() as int
    }
}

/// `value` cut to `maximum` columns, ending in an ellipsis when cut.
pub open spec fn truncated(value: Seq<char>, maximum: usize) -> Seq<char> {
    if columns(value) <= maximum {
        value
    } else if maximum == 0 {
        Seq::empty()
    } else if maximum <= ellipsis_cells() {
        seq!['…']
    } else {
        value.take(fit_len(value, (maximum - ellipsis_cells()) as nat)).push('…')
    }
}

proof fn lemma_cells_take_step(s: Seq<char>, i: int)
    requires
        0 <= i < s.len(),
    ensures
        cells(s.take(i + 1)) == cells(s.take(i)) + cells_of(s[i]),
{
    assert(s.take(i + 1).drop_last() =~= s.take(i));
}

proof fn lemma_plain_concat(a: Seq<char>, b: Seq<char>)
    requires
        plain(a),
        plain(b),
    ensures
        plain(a + b),
{
    assert forall|i: int| 0 <= i < (a + b).len() implies plain_char(#[trigger] (a + b)[i]) by {
        if i < a.len() {
            assert((a + b)[i] == a[i]);
        } else {
            assert((a + b)[i] == b[i - a.len()]);
        }
    }
}

proof fn lemma_cells_plain(s: Seq<char>)
    requires
        plain(s),
    ensures
        cells(s) == s.len(),
    decreases s.len(),
{
    if s.len() > 0 {
        let t = s.drop_last();
        assert forall|i: int| 0 <= i < t.len() implies plain_char(#[trigger] t[i]) by {
            assert(t[i] == s[i]);
        }
        lemma_cells_plain(t);
        assert(plain_char(s[s.len() - 1]));
    }
}

/// Plain text cut to `maximum` columns stays plain and at most `maximum`
/// characters long.
proof fn lemma_truncated_plain(v: Seq<char>, maximum: usize)
    requires
        plain(v),
        v.len() <= usize::MAX,
    ensures
        plain(truncated(v, maximum)),
        truncated(v, maximum).len() <= maximum,
{
    assert(ellipsis_cells() == 1);
    let e = seq!['…'];
    assert(plain(e)) by {
        assert forall|i: int| 0 <= i < e.len() implies plain_char(#[trigger] e[i]) by {
            assert(e[i] == '…');
        }
    }
    if columns(v) <= maximum {
    } else if maximum == 0 {
        assert(plain(Seq::<char>::empty()));
    } else if maximum <= 1 {
    } else {
        let avail = (maximum - 1) as nat;
        let a = avail as int;
        assert(v.len() > maximum);
        lemma_fit_len_plain(v, avail);
        let p = v.take(a);
        lemma_take_plain(v, a);
        lemma_plain_concat(p, e);
        assert(p.push('…') =~= p + e);
    }
}

/// In plain text longer than `available`, exactly `available` characters fit.
proof fn lemma_fit_len_plain(v: Seq<char>, available: nat)
    requires
        plain(v),
        v.len() > available,
    ensures
        fit_len(v, available) == available,
{
    let a = available as int;
    assert forall|j: int| 0 <= j < a implies cells(#[trigger] v.take(j + 1)) <= available by {
        lemma_take_plain(v, j + 1);
        lemma_cells_plain(v.take(j + 1));
    }
    lemma_take_plain(v, a + 1);
    lemma_cells_plain(v.take(a + 1));
    assert(first_overflow_at(v, available, a));
    let j = choose|j: int| first_overflow_at(v, available, j);
    assert(j == a) by {
        if j < a {
            assert(cells(v.take(j + 1)) <= available);
        } else if j > a {
            assert(cells(v.take(a + 1)) <= available);
        }
    }
}

proof fn lemma_trim_start_plain(s: Seq<char>)
    requires
        plain(s),
    ensures
        plain(crate::text::trim_start(s)),
    decreases s.len(),
{
    if s.len() > 0 && is_space(s[0]) {
        let t = s.drop_first();
        assert forall|i: int| 0 <= i < t.len() implies plain_char(#[trigger] t[i]) by {
            assert(t[i] == s[i + 1]);
        }
        lemma_trim_start_plain(t);
    }
}

proof fn lemma_trim_end_plain(s: Seq<char>)
    requires
        plain(s),
    ensures
        plain(crate::text::trim_end(s)),
        crate::text::trim_end(s).len() <= s.len(),
    decreases s.len(),
{
    if s.len() > 0 && is_space(s.last()) {
        let t = s.drop_last();
        lemma_take_plain(s, s.len() - 1);
        assert(t =~= s.take(s.len() - 1));
        lemma_trim_end_plain(t);
    }
}

/// A suffix of plain text is plain.
proof fn lemma_skip_plain(v: Seq<char>, n: int)
    requires
        plain(v),
        0 <= n <= v.len(),
    ensures
        plain(v.skip(n)),
{
    let p = v.skip(n);
    assert forall|i: int| 0 <= i < p.len() implies plain_char(#[trigger] p[i]) by {
        assert(p[i] == v[i + n]);
    }
}

/// A prefix of plain text is plain.
proof fn lemma_take_plain(v: Seq<char>, n: int)
    requires
        plain(v),
        0 <= n <= v.len(),
    ensures
        plain(v.take(n)),
{
    let p = v.take(n);
    assert forall|i: int| 0 <= i < p.len() implies plain_char(#[trigger] p[i]) by {
        assert(p[i] == v[i]);
    }
}

/// Spaces are plain.
proof fn lemma_spaces_plain(n: nat)
    ensures
        plain(spaces(n)),
        spaces(n).len() == n,
{
    let sp = spaces(n);
    assert forall|i: int| 0 <= i < sp.len() implies plain_char(#[trigger] sp[i]) by {
        assert(sp[i] == ' ');
    }
}

/// Padding plain text that fits gives exactly `width` plain characters.
proof fn lemma_padded_plain(v: Seq<char>, width: usize)
    requires
        plain(truncated(v, width)),
        truncated(v, width).len() <= width,
    ensures
        plain(padded(v, width)),
        padded(v, width).len() == width,
{
    let t = truncated(v, width);
    assert(columns(t) == t.len());
    let n: nat = if columns(t) < width {
        (width - columns(t)) as nat
    } else {
        0
    };
    lemma_spaces_plain(n);
    lemma_plain_concat(t, spaces(n));
}

/// Truncate to terminal-cell width without splitting a character.
pub fn truncate_to_width(value: &str, maximum: usize) -> (out: String)
    ensures
        out@ == truncated(value@, maximum),
        columns(value@) > maximum && ellipsis_cells() <= maximum ==> cells(out@) <= maximum,
        plain(value@) ==> plain(out@) && out@.len() <= maximum,
{
    let chars = chars_of(value);
    let count = chars.len();
    proof {
        assert(value@.len() == count);
        if plain(value@) {
            lemma_truncated_plain(value@, maximum);
        }
    }
    if str_width(value) <= maximum {
        return String::from_str(value);
    }
    if maximum == 0 {
        return String::new();
    }
    let ellipsis = '…';
    let ellipsis_width: usize = match char_width(ellipsis) {
        Some(w) => w,
        None => 1,
    };
    if maximum <= ellipsis_width {
        let mut out = String::new();
        push_char(&mut out, ellipsis);
        proof {
            assert(out@ =~= seq!['…']);
            assert(seq!['…'].drop_last() =~= Seq::<char>::empty());
            let one = seq!['…'];
            assert(one.drop_last() =~= Seq::<char>::empty());
            assert(cells(Seq::<char>::empty()) == 0);
            assert(cells(one) == cells(one.drop_last()) + cells_of(one.last()));
            assert(cells(out@) == cells_of('…'));
            assert(cells_of('…') <= ellipsis_width);
        }
        return out;
    }
    let available = maximum - ellipsis_width;
    let mut result = String::new();
    let mut width: usize = 0;
    let mut i: usize = 0;
    while i < chars.len()
        invariant
            i <= chars@.len(),
            chars@ == value@,
            width == cells(chars@.take(i as int)),
            width <= available,
            result@ == chars@.take(i as int),
            forall|j: int| 0 <= j < i ==> cells(#[trigger] chars@.take(j + 1)) <= available,
        ensures
            i <= chars@.len(),
            width == cells(chars@.take(i as int)),
            width <= available,
            result@ == chars@.take(i as int),
            i == chars@.len() || fit_len(chars@, available as nat) == i as int,
            i == chars@.len() ==> forall|j: int|
                0 <= j < i ==> cells(#[trigger] chars@.take(j + 1)) <= available,
        decreases chars.len() - i,
    {
        let character_width: usize = match char_width(chars[i]) {
            Some(w) => w,
            None => 0,
        };
        proof {
            lemma_cells_take_step(chars@, i as int);
        }
        if character_width > available - width {
            proof {
                assert(first_overflow_at(chars@, available as nat, i as int));
                let c = choose|c: int| first_overflow_at(chars@, available as nat, c);
                assert(c == i as int) by {
                    if c < i {
                    } else if c > i {
                    }
                }
            }
            break;
        }
        push_char(&mut result, chars[i]);
        width = width + character_width;
        i += 1;
    }
    proof {
        if i == chars@.len() {
            assert(!exists|c: int| first_overflow_at(chars@, available as nat, c));
            assert(chars@.take(i as int) =~= chars@);
        }
        assert(fit_len(chars@, available as nat) == i as int);
    }
    push_char(&mut result, ellipsis);
    proof {
        assert(result@.drop_last() =~= chars@.take(i as int));
        assert(cells(result@) == cells(chars@.take(i as int)) + cells_of('…'));
    }
    result
}

/// `n` spaces.
pub open spec fn spaces(n: nat) -> Seq<char> {
    Seq::new(n, |i: int| ' ')
}

pub fn push_spaces(s: &mut String, n: usize)
    ensures
        final(s)@ == old(s)@ + spaces(n as nat),
{
    let mut k: usize = 0;
    while k < n
        invariant
            k <= n,
            s@ == old(s)@ + spaces(k as nat),
        decreases n - k,
    {
        push_char(s, ' ');
        k += 1;
        assert(s@ =~= old(s)@ + spaces(k as nat));
    }
}

/// `value` cut to `width` columns, then padded with spaces to `width`
/// columns by its measured width.
pub open spec fn padded(value: Seq<char>, width: usize) -> Seq<char> {
    let t = truncated(value, width);
    t + spaces(
        if columns(t) < width {
            (width - columns(t)) as nat
        } else {
            0
        },
    )
}

pub fn pad_to_width(value: &str, width: usize) -> (out: String)
    ensures
        out@ == padded(value@, width),
        plain(value@) ==> plain(out@) && out@.len() == width,
{
    let mut out = truncate_to_width(value, width);
    let w = str_width(out.as_str());
    let padding: usize = if w < width {
        width - w
    } else {
        0
    };
    push_spaces(&mut out, padding);
    proof {
        if plain(value@) {
            lemma_padded_plain(value@, width);
        }
    }
    out
}

/// `{:6}`: `value` followed by spaces up to six characters.
pub open spec fn six_wide(value: Seq<char>) -> Seq<char> {
    value + spaces(
        if value.len() < 6 {
            (6 - value.len()) as nat
        } else {
            0
        },
    )
}

pub fn pad_six(value: &str) -> (out: String)
    ensures
        out@ == six_wide(value@),
        plain(value@) && value@.len() <= 6 ==> plain(out@) && out@.len() == 6,
{
    let n = chars_of(value).len();
    let mut out = String::from_str(value);
    push_spaces(
        &mut out,
        if n < 6 {
            6 - n
        } else {
            0
        },
    );
    proof {
        if plain(value@) && value@.len() <= 6 {
            lemma_spaces_plain((6 - value@.len()) as nat);
            lemma_plain_concat(value@, spaces((6 - value@.len()) as nat));
        }
    }
    out
}

// ---------------------------------------------------------------------------
// Rows.
// ---------------------------------------------------------------------------
#[derive(Debug, Clone, Copy, PartialEq, Eq, Structural)]
pub enum DesktopStatus {
    Running,
    Offline,
    Unknown,
}

pub open spec fn status_text(s: DesktopStatus) -> Seq<char> {
    match s {
        DesktopStatus::Running => "Running"@,
        DesktopStatus::Offline => "Offline"@,
        DesktopStatus::Unknown => "Unknown"@,
    }
}

impl DesktopStatus {
    pub fn label(self) -> (out: &'static str)
        ensures
            out@ == status_text(self),
    {
        match self {
            DesktopStatus::Running => "Running",
            DesktopStatus::Offline => "Offline",
            DesktopStatus::Unknown => "Unknown",
        }
    }
}

/// One line of the picker.
#[derive(Debug, Clone, PartialEq, Eq)]
pub struct PickerRow {
    pub id: String,
    pub label: String,
    pub kind: &'static str,
    pub detail: String,
    pub status: DesktopStatus,
    pub remote: bool,
}

/// The desktops in the order the picker lists them: the default first, then
/// the others in configuration order.
pub open spec fn others(ds: Seq<Desktop>, default: Seq<char>) -> Seq<Desktop>
    decreases ds.len(),
{
    if ds.len() == 0 {
        Seq::empty()
    } else if ds.last().id@ == default {
        others(ds.drop_last(), default)
    } else {
        others(ds.drop_last(), default).push(ds.last())
    }
}

pub open spec fn listed_desktops(config: DesktopConfig) -> Seq<Desktop> {
    let ds = config.desktops@;
    let head = if exists|i: int| first_desktop_at(ds, config.default@, i) {
        seq![ds[choose|i: int| first_desktop_at(ds, config.default@, i)]]
    } else {
        Seq::empty()
    };
    head + others(ds, config.default@)
}

/// Each desktop that `others` lists is a non-default desktop of `ds`.
proof fn lemma_others_from(ds: Seq<Desktop>, default: Seq<char>)
    ensures
        forall|i: int|
            0 <= i < others(ds, default).len() ==> exists|k: int|
                0 <= k < ds.len() && #[trigger] others(ds, default)[i] == ds[k] && ds[k].id@ != default,
    decreases ds.len(),
{
    if ds.len() > 0 {
        let w = ds.drop_last();
        lemma_others_from(w, default);
        let o = others(w, default);
        let n = others(ds, default);
        assert forall|i: int| 0 <= i < n.len() implies exists|k: int|
            0 <= k < ds.len() && #[trigger] n[i] == ds[k] && ds[k].id@ != default by {
            if i < o.len() {
                assert(n[i] == o[i]);
                let k = choose|k: int| 0 <= k < w.len() && o[i] == w[k] && w[k].id@ != default;
                assert(ds[k] == w[k]);
            } else {
                assert(n[i] == ds[ds.len() - 1]);
            }
        }
    }
}

/// Every non-default desktop of `ds` is listed by `others`.
proof fn lemma_others_cover(ds: Seq<Desktop>, default: Seq<char>)
    ensures
        forall|k: int|
            0 <= k < ds.len() && (#[trigger] ds[k]).id@ != default ==> others(ds, default).contains(ds[k]),
    decreases ds.len(),
{
    if ds.len() > 0 {
        let w = ds.drop_last();
        lemma_others_cover(w, default);
        let o = others(w, default);
        let n = others(ds, default);
        assert forall|k: int| 0 <= k < ds.len() && (#[trigger] ds[k]).id@ != default implies n.contains(ds[k]) by {
            if k < ds.len() - 1 {
                assert(w[k] == ds[k]);
                assert(o.contains(w[k]));
                let i = choose|i: int| 0 <= i < o.len() && o[i] == w[k];
                assert(n[i] == o[i]);
            } else {
                assert(n[o.len() as int] == ds[k]);
            }
        }
    }
}

/// When ids ascend in `ds`, they ascend in what `others` lists.
proof fn lemma_others_ascend(ds: Seq<Desktop>, default: Seq<char>)
    requires
        forall|a: int, b: int| 0 <= a < b < ds.len() ==> key_lt(#[trigger] ds[a].id@, #[trigger] ds[b].id@),
    ensures
        forall|i: int, j: int|
            0 <= i < j < others(ds, default).len() ==> key_lt(
                #[trigger] others(ds, default)[i].id@,
                #[trigger] others(ds, default)[j].id@,
            ),
    decreases ds.len(),
{
    if ds.len() > 0 {
        let w = ds.drop_last();
        assert forall|a: int, b: int| 0 <= a < b < w.len() implies key_lt(#[trigger] w[a].id@, #[trigger] w[b].id@) by {
            assert(w[a] == ds[a] && w[b] == ds[b]);
        }
        lemma_others_ascend(w, default);
        lemma_others_from(w, default);
        let o = others(w, default);
        let n = others(ds, default);
        if ds.last().id@ != default {
            assert forall|i: int, j: int| 0 <= i < j < n.len() implies key_lt(
                #[trigger] n[i].id@,
                #[trigger] n[j].id@,
            ) by {
                assert(n[i] == o[i]);
                if j < o.len() {
                    assert(n[j] == o[j]);
                } else {
                    let k = choose|k: int| 0 <= k < w.len() && o[i] == w[k] && w[k].id@ != default;
                    assert(w[k] == ds[k]);
                    assert(n[j] == ds[ds.len() - 1]);
                }
            }
        }
    }
}

/// The picker lists a valid configuration's default desktop first, then every
/// other desktop exactly once, in ascending id order.
pub proof fn law_rows_list_default_then_ids(config: DesktopConfig)
    requires
        config.is_valid(),
    ensures
        ({
            let listed = listed_desktops(config);
            let ds = config.desktops@;
            &&& listed.len() > 0
            &&& listed[0].id@ == config.default@
            &&& forall|i: int| 1 <= i < listed.len() ==> (#[trigger] listed[i]).id@ != config.default@
            &&& forall|i: int, j: int|
                1 <= i < j < listed.len() ==> key_lt(#[trigger] listed[i].id@, #[trigger] listed[j].id@)
            &&& forall|i: int| 0 <= i < listed.len() ==> ds.contains(#[trigger] listed[i])
            &&& forall|k: int| 0 <= k < ds.len() ==> listed.contains(#[trigger] ds[k])
        }),
{
    let ds = config.desktops@;
    let d = config.default@;
    let k0 = choose|i: int| 0 <= i < ds.len() && #[trigger] ds[i].id@ == d;
    assert(first_desktop_at(ds, d, k0)) by {
        assert forall|j: int| 0 <= j < k0 implies ds[j].id@ != d by {
            assert(key_lt(ds[j].id@, ds[k0].id@));
            crate::text::lemma_key_lt_irreflexive(ds[k0].id@);
        }
    }
    let f = choose|i: int| first_desktop_at(ds, d, i);
    lemma_others_from(ds, d);
    lemma_others_cover(ds, d);
    lemma_others_ascend(ds, d);
    let o = others(ds, d);
    let listed = listed_desktops(config);
    assert(listed == seq![ds[f]] + o);
    assert forall|i: int| 1 <= i < listed.len() implies (#[trigger] listed[i]).id@ != d by {
        assert(listed[i] == o[i - 1]);
    }
    assert forall|i: int, j: int| 1 <= i < j < listed.len() implies key_lt(
        #[trigger] listed[i].id@,
        #[trigger] listed[j].id@,
    ) by {
        assert(listed[i] == o[i - 1] && listed[j] == o[j - 1]);
    }
    assert forall|i: int| 0 <= i < listed.len() implies ds.contains(#[trigger] listed[i]) by {
        if i == 0 {
            assert(listed[0] == ds[f]);
        } else {
            assert(listed[i] == o[i - 1]);
            let k = choose|k: int| 0 <= k < ds.len() && o[i - 1] == ds[k] && ds[k].id@ != d;
            assert(ds[k] == listed[i]);
        }
    }
    assert forall|k: int| 0 <= k < ds.len() implies listed.contains(#[trigger] ds[k]) by {
        if ds[k].id@ == d {
            if k != f {
                if k < f {
                } else {
                    assert(key_lt(ds[f].id@, ds[k].id@));
                    crate::text::lemma_key_lt_irreflexive(ds[k].id@);
                }
            }
            assert(listed[0] == ds[k]);
        } else {
            assert(o.contains(ds[k]));
            let i = choose|i: int| 0 <= i < o.len() && o[i] == ds[k];
            assert(listed[i + 1] == o[i]);
        }
    }
}

/// Some live record belongs to desktop `id`.
pub open spec fn is_running(live: Seq<InstanceRecord>, id: Seq<char>) -> bool {
    exists|i: int| 0 <= i < live.len() && (#[trigger] live[i]).desktop_id@ == id
}

/// The row shows desktop `d`, running exactly when a live record names it.
pub open spec fn row_shows(row: PickerRow, d: Desktop, live: Seq<InstanceRecord>) -> bool {
    &&& row.id == d.id
    &&& row.label == d.label
    &&& match d.mode {
        DesktopMode::Local => row.kind@ == "Local"@ && row.detail@ == "This Mac"@ && !row.remote,
        DesktopMode::Remote { target, session, .. } => row.kind@ == "Remote"@ && row.detail@
            == target@ + " / "@ + session@ && row.remote,
    }
    &&& row.status == if is_running(live, d.id@) {
        DesktopStatus::Running
    } else {
        DesktopStatus::Unknown
    }
}

fn running(live: &[InstanceRecord], id: &str) -> (r: bool)
    ensures
        r == is_running(live@, id@),
{
    let mut i: usize = 0;
    while i < live.len()
        invariant
            i <= live@.len(),
            forall|j: int| 0 <= j < i ==> (#[trigger] live@[j]).desktop_id@ != id@,
        decreases live.len() - i,
    {
        if same_text(live[i].desktop_id.as_str(), id) {
            return true;
        }
        i += 1;
    }
    false
}

fn row_for(d: &Desktop, live: &[InstanceRecord]) -> (row: PickerRow)
    ensures
        row_shows(row, *d, live@),
{
    let (kind, detail, remote) = match &d.mode {
        DesktopMode::Local => ("Local", String::from_str("This Mac"), false),
        DesktopMode::Remote { target, session, .. } => (
            "Remote",
            join3(target.as_str(), " / ", session.as_str()),
            true,
        ),
    };
    PickerRow {
        id: d.id.clone(),
        label: d.label.clone(),
        kind,
        detail,
        status: if running(live, d.id.as_str()) {
            DesktopStatus::Running
        } else {
            DesktopStatus::Unknown
        },
        remote,
    }
}

/// The rows of the picker, from the configuration and the live records only
/// (no remote endpoint is probed).
pub fn build_rows(config: &DesktopConfig, live: &[InstanceRecord]) -> (rows: Vec<PickerRow>)
    ensures
        rows@.len() == listed_desktops(*config).len(),
        forall|i: int|
            0 <= i < rows@.len() ==> row_shows(
                #[trigger] rows@[i],
                listed_desktops(*config)[i],
                live@,
            ),
        config.is_valid() ==> rows@.len() > 0 && rows@[0].id@ == config.default@ && forall|i: int, j: int|
            1 <= i < j < rows@.len() ==> key_lt(#[trigger] rows@[i].id@, #[trigger] rows@[j].id@),
        forall|i: int|
            0 <= i < rows@.len() ==> ((#[trigger] rows@[i]).status == DesktopStatus::Running <==> exists|k: int|
                0 <= k < live@.len() && (#[trigger] live@[k]).desktop_id@ == rows@[i].id@),
{
    let ghost ds = config.desktops@;
    let mut rows: Vec<PickerRow> = Vec::new();
    let ghost mut listed: Seq<Desktop> = Seq::empty();
    if let Some(d) = config.desktop(config.default.as_str()) {
        rows.push(row_for(d, live));
        proof {
            let i = choose|i: int| first_desktop_at(ds, config.default@, i) && *d == ds[i];
            let c = choose|c: int| first_desktop_at(ds, config.default@, c);
            assert(c == i) by {
                if c < i {
                } else if c > i {
                }
            }
            listed = seq![*d];
        }
    }
    let ghost head = listed;
    let mut k: usize = 0;
    while k < config.desktops.len()
        invariant
            k <= ds.len(),
            ds == config.desktops@,
            head + others(ds.take(k as int), config.default@) == listed,
            rows@.len() == listed.len(),
            forall|i: int| 0 <= i < rows@.len() ==> row_shows(#[trigger] rows@[i], listed[i], live@),
        decreases config.desktops.len() - k,
    {
        let d = &config.desktops[k];
        assert(ds.take(k + 1).drop_last() =~= ds.take(k as int));
        if !same_text(d.id.as_str(), config.default.as_str()) {
            rows.push(row_for(d, live));
            proof {
                listed = listed.push(*d);
                assert(head + others(ds.take(k + 1), config.default@) =~= listed);
            }
        }
        k += 1;
    }
    proof {
        assert(ds.take(ds.len() as int) =~= ds);
        if !exists|i: int| first_desktop_at(ds, config.default@, i) {
            assert(head =~= Seq::<Desktop>::empty());
        }
        let all = listed_desktops(*config);
        assert(listed == all);
        if config.is_valid() {
            law_rows_list_default_then_ids(*config);
            assert(rows@[0].id == all[0].id);
            assert forall|i: int, j: int| 1 <= i < j < rows@.len() implies key_lt(
                #[trigger] rows@[i].id@,
                #[trigger] rows@[j].id@,
            ) by {
                assert(row_shows(rows@[i], all[i], live@));
                assert(row_shows(rows@[j], all[j], live@));
            }
        }
        assert forall|i: int| 0 <= i < rows@.len() implies ((#[trigger] rows@[i]).status
            == DesktopStatus::Running <==> exists|k: int|
            0 <= k < live@.len() && (#[trigger] live@[k]).desktop_id@ == rows@[i].id@) by {
            assert(row_shows(rows@[i], all[i], live@));
        }
    }
    rows
}

// ---------------------------------------------------------------------------
// Notices and launch messages.
// ---------------------------------------------------------------------------
#[derive(Debug, Clone, PartialEq, Eq)]
pub enum Notice {
    Busy { title: String },
    Error { title: String, detail: String },
    Outcome { title: String, detail: String },
}

pub open spec fn outcome_title(o: LaunchOutcome) -> Seq<char> {
    match o {
        LaunchOutcome::Launched { .. } => "Launched"@,
        LaunchOutcome::Focused { .. } => "Focused"@,
    }
}

pub open spec fn outcome_text(o: LaunchOutcome, label: Seq<char>) -> Seq<char> {
    match o {
        LaunchOutcome::Launched { .. } => "Herdr client launched for "@ + label + "."@,
        LaunchOutcome::Focused { .. } => "Existing Herdr client focused for "@ + label + "."@,
    }
}

pub fn outcome_copy(outcome: &LaunchOutcome) -> (out: &'static str)
    ensures
        out@ == outcome_title(*outcome),
{
    match outcome {
        LaunchOutcome::Launched { .. } => "Launched",
        LaunchOutcome::Focused { .. } => "Focused",
    }
}

pub fn outcome_detail(outcome: &LaunchOutcome, label: &str) -> (out: String)
    ensures
        out@ == outcome_text(*outcome, label@),
{
    match outcome {
        LaunchOutcome::Launched { .. } => join3("Herdr client launched for ", label, "."),
        LaunchOutcome::Focused { .. } => join3("Existing Herdr client focused for ", label, "."),
    }
}

/// The texts whose presence marks a launch error as the remote end being
/// unreachable.
pub open spec fn remote_failure_needles() -> Seq<Seq<char>> {
    seq![
        "failed bounded non-interactive ssh preflight"@,
        "could not resolve hostname"@,
        "connection refused"@,
        "connection timed out"@,
        "operation timed out"@,
        "network is unreachable"@,
        "no route to host"@,
        "host is down"@,
        "host key verification failed"@,
        "permission denied (publickey"@,
        "connection closed"@,
        "connection reset"@,
        "ssh_exchange_identification"@,
    ]
}

/// The error, lowercased in ASCII, contains one of the remote-failure texts.
pub open spec fn is_remote_failure(error: Seq<char>) -> bool {
    exists|k: int|
        0 <= k < remote_failure_needles().len() && has_infix(
            ascii_lowercase(error),
            #[trigger] remote_failure_needles()[k],
        )
}

pub fn clearly_remote_failure(error: &str) -> (r: bool)
    ensures
        r == is_remote_failure(error@),
{
    let chars = chars_of(error);
    let message = to_ascii_lower(chars.as_slice());
    let needles: [&str; 13] = [
        "failed bounded non-interactive ssh preflight",
        "could not resolve hostname",
        "connection refused",
        "connection timed out",
        "operation timed out",
        "network is unreachable",
        "no route to host",
        "host is down",
        "host key verification failed",
        "permission denied (publickey",
        "connection closed",
        "connection reset",
        "ssh_exchange_identification",
    ];
    assert(needles@.map_values(|n: &str| n@) =~= remote_failure_needles());
    let mut k: usize = 0;
    while k < 13
        invariant
            k <= 13,
            message@ == ascii_lowercase(error@),
            needles@.map_values(|n: &str| n@) == remote_failure_needles(),
            forall|j: int|
                0 <= j < k ==> !has_infix(ascii_lowercase(error@), #[trigger] remote_failure_needles()[j]),
        decreases 13 - k,
    {
        let needle = chars_of(needles[k]);
        assert(needles@.map_values(|n: &str| n@)[k as int] == needles@[k as int]@);
        if contains(message.as_slice(), needle.as_slice()) {
            return true;
        }
        k += 1;
    }
    false
}

/// Control characters as spaces.
pub open spec fn controls_blanked(s: Seq<char>) -> Seq<char> {
    Seq::new(
        s.len(),
        |i: int|
            if is_control(s[i]) {
                ' '
            } else {
                s[i]
            },
    )
}

/// The words of `s` (split at white space) joined by single spaces.
pub open spec fn squeezed(s: Seq<char>) -> Seq<char>
    decreases s.len(),
{
    if s.len() == 0 {
        Seq::empty()
    } else {
        let p = squeezed(s.drop_last());
        let c = s.last();
        if is_space(c) {
            p
        } else if s.len() >= 2 && is_space(s[s.len() - 2]) && p.len() > 0 {
            p.push(' ').push(c)
        } else {
            p.push(c)
        }
    }
}

/// An error message made safe for one line of the terminal.
pub open spec fn sanitized(s: Seq<char>) -> Seq<char> {
    squeezed(controls_blanked(s))
}

proof fn lemma_squeezed_keeps_out_controls(t: Seq<char>)
    requires
        forall|k: int| 0 <= k < t.len() ==> !is_control(#[trigger] t[k]),
    ensures
        forall|i: int| 0 <= i < squeezed(t).len() ==> !is_control(#[trigger] squeezed(t)[i]),
    decreases t.len(),
{
    if t.len() > 0 {
        let u = t.drop_last();
        assert forall|k: int| 0 <= k < u.len() implies !is_control(#[trigger] u[k]) by {
            assert(u[k] == t[k]);
        }
        lemma_squeezed_keeps_out_controls(u);
        let p = squeezed(u);
        let c = t.last();
        assert(!is_control(t[t.len() - 1]));
        assert(!is_control(' '));
        let q = squeezed(t);
        assert forall|i: int| 0 <= i < q.len() implies !is_control(#[trigger] q[i]) by {
            if is_space(c) {
                assert(q == p);
            } else if t.len() >= 2 && is_space(t[t.len() - 2]) && p.len() > 0 {
                assert(q == p.push(' ').push(c));
                if i < p.len() {
                    assert(q[i] == p[i]);
                }
            } else {
                assert(q == p.push(c));
                if i < p.len() {
                    assert(q[i] == p[i]);
                }
            }
        }
    }
}

/// A sanitized message holds no control characters: no escape sequences and
/// no line breaks reach the terminal.
pub proof fn law_sanitized_has_no_controls(s: Seq<char>)
    ensures
        forall|i: int| 0 <= i < sanitized(s).len() ==> !is_control(#[trigger] sanitized(s)[i]),
{
    let t = controls_blanked(s);
    assert forall|k: int| 0 <= k < t.len() implies !is_control(#[trigger] t[k]) by {
        assert(!is_control(' '));
    }
    lemma_squeezed_keeps_out_controls(t);
}

pub fn sanitize_text(value: &str) -> (out: String)
    ensures
        out@ == sanitized(value@),
{
    let chars = chars_of(value);
    let mut blanked: Vec<char> = Vec::new();
    let mut i: usize = 0;
    while i < chars.len()
        invariant
            i <= chars@.len(),
            chars@ == value@,
            blanked@ == controls_blanked(chars@.take(i as int)),
        decreases chars.len() - i,
    {
        blanked.push(
            if control(chars[i]) {
                ' '
            } else {
                chars[i]
            },
        );
        i += 1;
        assert(blanked@ =~= controls_blanked(chars@.take(i as int)));
    }
    assert(chars@.take(chars@.len() as int) =~= chars@);
    let mut out = String::new();
    let mut k: usize = 0;
    while k < blanked.len()
        invariant
            k <= blanked@.len(),
            out@ == squeezed(blanked@.take(k as int)),
        decreases blanked.len() - k,
    {
        let c = blanked[k];
        let ghost pre = blanked@.take(k + 1);
        assert(pre.drop_last() =~= blanked@.take(k as int));
        if !space(c) {
            if k >= 1 && space(blanked[k - 1]) && out.as_str().is_empty() == false {
                assert(pre[pre.len() - 2] == blanked@[k - 1]);
                push_char(&mut out, ' ');
            } else {
                proof {
                    if k >= 1 {
                        assert(pre[pre.len() - 2] == blanked@[k - 1]);
                    }
                }
            }
            push_char(&mut out, c);
        }
        k += 1;
    }
    assert(blanked@.take(blanked@.len() as int) =~= blanked@);
    out
}

// ---------------------------------------------------------------------------
// The picker state.
// ---------------------------------------------------------------------------
/// The picker: its rows, the selected row, the first row shown, and the
/// notice under the list.
#[derive(Debug, Clone)]
pub struct PickerState {
    pub rows: Vec<PickerRow>,
    pub selected: usize,
    pub offset: usize,
    pub notice: Option<Notice>,
}

fn copy_row(row: &PickerRow, status: DesktopStatus) -> (r: PickerRow)
    ensures
        r == (PickerRow { status, ..*row }),
{
    PickerRow {
        id: row.id.clone(),
        label: row.label.clone(),
        kind: row.kind,
        detail: row.detail.clone(),
        status,
        remote: row.remote,
    }
}

impl PickerState {
    pub fn new(rows: Vec<PickerRow>) -> (s: PickerState)
        ensures
            s.rows == rows,
            s.selected == 0,
            s.offset == 0,
            s.notice is None,
    {
        PickerState { rows, selected: 0, offset: 0, notice: None }
    }

    /// Moves the selection up one row, wrapping from the top to the bottom.
    pub fn move_up(&mut self)
        ensures
            final(self).rows == old(self).rows,
            final(self).offset == old(self).offset,
            final(self).notice == old(self).notice,
            final(self).selected == if old(self).rows@.len() == 0 {
                old(self).selected as int
            } else if old(self).selected == 0 {
                old(self).rows@.len() - 1
            } else {
                old(self).selected - 1
            },
    {
        if self.rows.len() == 0 {
            return;
        }
        self.selected = if self.selected == 0 {
            self.rows.len() - 1
        } else {
            self.selected - 1
        };
    }

    /// Moves the selection down one row, wrapping from the bottom to the top.
    pub fn move_down(&mut self)
        requires
            old(self).rows@.len() > 0 ==> old(self).selected < usize::MAX,
        ensures
            final(self).rows == old(self).rows,
            final(self).offset == old(self).offset,
            final(self).notice == old(self).notice,
            final(self).selected == if old(self).rows@.len() == 0 {
                old(self).selected as int
            } else {
                (old(self).selected + 1) % (old(self).rows@.len() as int)
            },
    {
        if self.rows.len() > 0 {
            self.selected = (self.selected + 1) % self.rows.len();
        }
    }

    /// Scrolls so that the selected row lies within a window of `capacity`
    /// rows.
    pub fn ensure_selected_visible(&mut self, capacity: usize)
        requires
            old(self).selected < usize::MAX,
        ensures
            final(self).rows == old(self).rows,
            final(self).selected == old(self).selected,
            final(self).notice == old(self).notice,
            final(self).offset == if old(self).selected < old(self).offset {
                old(self).selected as int
            } else if old(self).selected >= old(self).offset + capacity {
                old(self).selected + 1 - capacity
            } else {
                old(self).offset as int
            },
            capacity >= 1 ==> final(self).offset <= final(self).selected < final(self).offset
                + capacity,
    {
        if self.selected < self.offset {
            self.offset = self.selected;
        } else if self.offset <= usize::MAX - capacity && self.selected >= self.offset + capacity {
            self.offset = self.selected + 1 - capacity;
        }
    }

    /// Shows that the selected desktop is being opened.
    pub fn start_launch(&mut self)
        ensures
            final(self).rows == old(self).rows,
            final(self).selected == old(self).selected,
            final(self).offset == old(self).offset,
            old(self).selected < old(self).rows@.len() ==> (final(self).notice matches Some(
                Notice::Busy { title },
            ) && title@ == "Opening "@ + old(self).rows@[old(self).selected as int].label@
                + "..."@),
            old(self).selected >= old(self).rows@.len() ==> final(self).notice == old(self).notice,
    {
        if self.selected < self.rows.len() {
            let title = join3("Opening ", self.rows[self.selected].label.as_str(), "...");
            self.notice = Some(Notice::Busy { title });
        }
    }

    /// Records a failed launch of the selected desktop: it shows as offline
    /// only when it is remote and the error clearly says the remote end is
    /// unreachable.
    pub fn apply_launch_error(&mut self, error: &str)
        ensures
            final(self).selected == old(self).selected,
            final(self).offset == old(self).offset,
            old(self).selected >= old(self).rows@.len() ==> *final(self) == *old(self),
            old(self).selected < old(self).rows@.len() ==> ({
                let i = old(self).selected as int;
                let row = old(self).rows@[i];
                let status = if row.remote && is_remote_failure(error@) {
                    DesktopStatus::Offline
                } else {
                    DesktopStatus::Unknown
                };
                &&& final(self).rows@ == old(self).rows@.update(i, PickerRow { status, ..row })
                &&& final(self).notice matches Some(Notice::Error { title, detail })
                &&& title@ == "Could not open "@ + row.label@
                &&& detail@ == sanitized(error@)
            }),
    {
        if self.selected >= self.rows.len() {
            return;
        }
        let i = self.selected;
        let status = if self.rows[i].remote && clearly_remote_failure(error) {
            DesktopStatus::Offline
        } else {
            DesktopStatus::Unknown
        };
        let row = copy_row(&self.rows[i], status);
        let title = join2("Could not open ", row.label.as_str());
        self.rows.set(i, row);
        self.notice = Some(Notice::Error { title, detail: sanitize_text(error) });
    }

    /// Records that the selected desktop was launched or focused.
    pub fn apply_outcome(&mut self, outcome: &LaunchOutcome)
        ensures
            final(self).selected == old(self).selected,
            final(self).offset == old(self).offset,
            old(self).selected >= old(self).rows@.len() ==> *final(self) == *old(self),
            old(self).selected < old(self).rows@.len() ==> ({
                let i = old(self).selected as int;
                let row = old(self).rows@[i];
                &&& final(self).rows@ == old(self).rows@.update(
                    i,
                    PickerRow { status: DesktopStatus::Running, ..row },
                )
                &&& final(self).notice matches Some(Notice::Outcome { title, detail })
                &&& title@ == outcome_title(*outcome)
                &&& detail@ == outcome_text(*outcome, row.label@)
            }),
    {
        if self.selected >= self.rows.len() {
            return;
        }
        let i = self.selected;
        let row = copy_row(&self.rows[i], DesktopStatus::Running);
        let title = String::from_str(outcome_copy(outcome));
        let detail = outcome_detail(outcome, row.label.as_str());
        self.rows.set(i, row);
        self.notice = Some(Notice::Outcome { title, detail });
    }

    /// Shows an error that is not about one desktop.
    pub fn set_system_error(&mut self, title: &str, detail: &str)
        ensures
            final(self).rows == old(self).rows,
            final(self).selected == old(self).selected,
            final(self).offset == old(self).offset,
            final(self).notice matches Some(Notice::Error { title: t, detail: d }),
            final(self).notice matches Some(Notice::Error { title: t, detail: d }) ==> t@ == title@
                && d@ == sanitized(detail@),
    {
        self.notice = Some(
            Notice::Error { title: String::from_str(title), detail: sanitize_text(detail) },
        );
    }
}


// ---------------------------------------------------------------------------
// Fixed-width text.
// ---------------------------------------------------------------------------
pub open spec fn clamped(x: int, low: int, high: int) -> int {
    if x < low {
        low
    } else if x > high {
        high
    } else {
        x
    }
}

/// One line of the list: selection marker, label, then as much of type,
/// target and status as `width` allows.
pub open spec fn line_text(
    label: Seq<char>,
    kind: Seq<char>,
    detail: Seq<char>,
    status: DesktopStatus,
    selected: bool,
    width: usize,
    preferred_label_width: usize,
) -> Seq<char> {
    let marker = if selected {
        "> "@
    } else {
        "  "@
    };
    let st = status_text(status);
    if width <= 11 {
        truncated(marker + label, width)
    } else if width < 36 {
        marker + padded(label, (width - 11) as usize) + "  "@ + st
    } else if width < 48 {
        marker + padded(label, (width - 19) as usize) + "  "@ + six_wide(kind) + "  "@ + st
    } else {
        let lw = clamped(preferred_label_width as int, 10, width - 31);
        let dw = if width >= lw + 21 {
            width - (lw + 21)
        } else {
            0
        };
        marker + padded(label, lw as usize) + "  "@ + six_wide(kind) + "  "@ + padded(
            detail,
            dw as usize,
        ) + "  "@ + st
    }
}

pub open spec fn row_text(row: PickerRow, selected: bool, width: usize, plw: usize) -> Seq<char> {
    line_text(row.label@, row.kind@, row.detail@, row.status, selected, width, plw)
}

fn narrow_line(marker: &str, label: &str, st: &str, width: usize) -> (out: String)
    requires
        11 < width < 36,
    ensures
        out@ == marker@ + padded(label@, (width - 11) as usize) + "  "@ + st@,
        plain(label@) ==> plain(padded(label@, (width - 11) as usize)) && padded(
            label@,
            (width - 11) as usize,
        ).len() == width - 11,
{
    let l = pad_to_width(label, width - 11);
    join4_s(marker, l.as_str(), "  ", st)
}

fn medium_line(marker: &str, label: &str, kind: &str, st: &str, width: usize) -> (out: String)
    requires
        36 <= width < 48,
    ensures
        out@ == marker@ + padded(label@, (width - 19) as usize) + "  "@ + six_wide(kind@) + "  "@
            + st@,
        plain(label@) ==> plain(padded(label@, (width - 19) as usize)) && padded(
            label@,
            (width - 19) as usize,
        ).len() == width - 19,
        plain(kind@) && kind@.len() <= 6 ==> plain(six_wide(kind@)) && six_wide(kind@).len() == 6,
{
    let l = pad_to_width(label, width - 19);
    let k = pad_six(kind);
    let head = join4_s(marker, l.as_str(), "  ", k.as_str());
    let out = join3(head.as_str(), "  ", st);
    assert(out@ =~= marker@ + padded(label@, (width - 19) as usize) + "  "@ + six_wide(kind@)
        + "  "@ + st@);
    out
}

fn wide_line(
    marker: &str,
    label: &str,
    kind: &str,
    detail: &str,
    st: &str,
    label_width: usize,
    detail_width: usize,
) -> (out: String)
    ensures
        out@ == marker@ + padded(label@, label_width) + "  "@ + six_wide(kind@) + "  "@ + padded(
            detail@,
            detail_width,
        ) + "  "@ + st@,
        plain(label@) ==> plain(padded(label@, label_width)) && padded(label@, label_width).len()
            == label_width,
        plain(detail@) ==> plain(padded(detail@, detail_width)) && padded(
            detail@,
            detail_width,
        ).len() == detail_width,
        plain(kind@) && kind@.len() <= 6 ==> plain(six_wide(kind@)) && six_wide(kind@).len() == 6,
{
    let l = pad_to_width(label, label_width);
    let k = pad_six(kind);
    let d = pad_to_width(detail, detail_width);
    let head = join4_s(marker, l.as_str(), "  ", k.as_str());
    let tail = join4_s("  ", d.as_str(), "  ", st);
    let out = join2(head.as_str(), tail.as_str());
    assert(out@ =~= marker@ + padded(label@, label_width) + "  "@ + six_wide(kind@) + "  "@
        + padded(detail@, detail_width) + "  "@ + st@);
    out
}

fn line_of(
    label: &str,
    kind: &str,
    detail: &str,
    status: DesktopStatus,
    selected: bool,
    width: usize,
    preferred_label_width: usize,
) -> (out: String)
    ensures
        out@ == line_text(label@, kind@, detail@, status, selected, width, preferred_label_width),
        plain(label@) && plain(detail@) && plain(kind@) && kind@.len() <= 6 ==> plain(out@)
            && out@.len() <= width,
{
    let marker = if selected {
        "> "
    } else {
        "  "
    };
    let st = status.label();
    proof {
        lemma_line_pieces_plain(marker@, st@, status, selected);
    }
    if width <= 11 {
        let text = join2(marker, label);
        proof {
            if plain(label@) {
                lemma_plain_concat(marker@, label@);
            }
        }
        return truncate_to_width(text.as_str(), width);
    }
    if width < 36 {
        let out = narrow_line(marker, label, st, width);
        proof {
            if plain(label@) {
                let l = padded(label@, (width - 11) as usize);
                lemma_plain_concat(marker@, l);
                lemma_plain_concat(marker@ + l, "  "@);
                lemma_plain_concat(marker@ + l + "  "@, st@);
            }
        }
        return out;
    }
    if width < 48 {
        let out = medium_line(marker, label, kind, st, width);
        proof {
            if plain(label@) && plain(kind@) && kind@.len() <= 6 {
                let l = padded(label@, (width - 19) as usize);
                let k = six_wide(kind@);
                lemma_plain_concat(marker@, l);
                lemma_plain_concat(marker@ + l, "  "@);
                lemma_plain_concat(marker@ + l + "  "@, k);
                lemma_plain_concat(marker@ + l + "  "@ + k, "  "@);
                lemma_plain_concat(marker@ + l + "  "@ + k + "  "@, st@);
            }
        }
        return out;
    }
    let high = width - 31;
    let label_width = if preferred_label_width < 10 {
        10
    } else if preferred_label_width > high {
        high
    } else {
        preferred_label_width
    };
    let detail_width = if width >= label_width + 21 {
        width - (label_width + 21)
    } else {
        0
    };
    let out = wide_line(marker, label, kind, detail, st, label_width, detail_width);
    proof {
        if plain(label@) && plain(detail@) && plain(kind@) && kind@.len() <= 6 {
            let l = padded(label@, label_width);
            let k = six_wide(kind@);
            let d = padded(detail@, detail_width);
            lemma_plain_concat(marker@, l);
            lemma_plain_concat(marker@ + l, "  "@);
            lemma_plain_concat(marker@ + l + "  "@, k);
            lemma_plain_concat(marker@ + l + "  "@ + k, "  "@);
            lemma_plain_concat(marker@ + l + "  "@ + k + "  "@, d);
            lemma_plain_concat(marker@ + l + "  "@ + k + "  "@ + d, "  "@);
            lemma_plain_concat(marker@ + l + "  "@ + k + "  "@ + d + "  "@, st@);
        }
    }
    out
}

/// The fixed pieces of a line are plain: both markers, the gap between
/// columns, and each status (seven characters).
proof fn lemma_line_pieces_plain(marker: Seq<char>, st: Seq<char>, status: DesktopStatus, selected: bool)
    requires
        marker == (if selected {
            "> "@
        } else {
            "  "@
        }),
        st == status_text(status),
    ensures
        plain(marker),
        marker.len() == 2,
        plain("  "@),
        "  "@.len() == 2,
        plain(st),
        st.len() == 7,
{
    reveal_strlit("> ");
    reveal_strlit("  ");
    reveal_strlit("Running");
    reveal_strlit("Offline");
    reveal_strlit("Unknown");
    assert(plain("  "@)) by {
        assert forall|i: int| 0 <= i < "  "@.len() implies plain_char(#[trigger] "  "@[i]) by {}
    }
    assert(plain(marker)) by {
        assert forall|i: int| 0 <= i < marker.len() implies plain_char(#[trigger] marker[i]) by {}
    }
    assert(plain(st)) by {
        assert forall|i: int| 0 <= i < st.len() implies plain_char(#[trigger] st[i]) by {}
    }
}

fn join4_s(a: &str, b: &str, c: &str, d: &str) -> (out: String)
    ensures
        out@ == a@ + b@ + c@ + d@,
{
    crate::text::join4(a, b, c, d)
}

/// One fixed-width, unstyled line for `row`; the selection stays visible
/// without color.
pub fn render_row_text(
    row: &PickerRow,
    selected: bool,
    width: usize,
    preferred_label_width: usize,
) -> (out: String)
    ensures
        out@ == row_text(*row, selected, width, preferred_label_width),
        plain(row.label@) && plain(row.detail@) && plain(row.kind@) && row.kind@.len() <= 6
            ==> plain(out@) && out@.len() <= width && columns(out@) <= width,
{
    line_of(
        row.label.as_str(),
        row.kind,
        row.detail.as_str(),
        row.status,
        selected,
        width,
        preferred_label_width,
    )
}

/// The column titles, laid out like a row; its trailing status word becomes
/// `STATUS `.
pub open spec fn header_line(width: usize, plw: usize) -> Seq<char> {
    let line = line_text(
        "DESKTOP"@,
        "TYPE"@,
        "TARGET / SESSION"@,
        DesktopStatus::Unknown,
        false,
        width,
        plw,
    );
    if line.len() >= 7 && line.skip(line.len() - 7) == "Unknown"@ {
        line.take(line.len() - 7) + "STATUS "@
    } else {
        line
    }
}

pub fn header_text(width: usize, preferred_label_width: usize) -> (out: String)
    ensures
        out@ == header_line(width, preferred_label_width),
{
    let line = line_of(
        "DESKTOP",
        "TYPE",
        "TARGET / SESSION",
        DesktopStatus::Unknown,
        false,
        width,
        preferred_label_width,
    );
    let chars = chars_of(line.as_str());
    let unknown = chars_of("Unknown");
    proof {
        reveal_strlit("Unknown");
    }
    if chars.len() >= 7 {
        let tail = crate::text::string_from(chars.as_slice(), chars.len() - 7, chars.len());
        let tail_chars = chars_of(tail.as_str());
        if crate::text::same_chars(tail_chars.as_slice(), unknown.as_slice()) {
            let head = crate::text::string_from(chars.as_slice(), 0, chars.len() - 7);
            assert(chars@.subrange(chars@.len() - 7, chars@.len() as int) =~= chars@.skip(
                chars@.len() - 7,
            ));
            assert(chars@.subrange(0, chars@.len() - 7) =~= chars@.take(chars@.len() - 7));
            return join2(head.as_str(), "STATUS ");
        }
        assert(chars@.subrange(chars@.len() - 7, chars@.len() as int) =~= chars@.skip(
            chars@.len() - 7,
        ));
    }
    line
}

/// The widest label, if there is a row.
pub open spec fn widest_label(rows: Seq<PickerRow>) -> Option<usize>
    decreases rows.len(),
{
    if rows.len() == 0 {
        None
    } else {
        let w = columns(rows.last().label@);
        match widest_label(rows.drop_last()) {
            None => Some(w),
            Some(m) => Some(
                if w >= m {
                    w
                } else {
                    m
                },
            ),
        }
    }
}

pub open spec fn preferred_width_of(rows: Seq<PickerRow>) -> usize {
    clamped(
        match widest_label(rows) {
            Some(w) => w as int,
            None => 10,
        },
        10,
        20,
    ) as usize
}

/// The label column's preferred width: the widest label, kept within 10..=20.
pub fn preferred_label_width(rows: &[PickerRow]) -> (w: usize)
    ensures
        w == preferred_width_of(rows@),
{
    let mut widest: Option<usize> = None;
    let mut i: usize = 0;
    while i < rows.len()
        invariant
            i <= rows@.len(),
            widest == widest_label(rows@.take(i as int)),
        decreases rows.len() - i,
    {
        assert(rows@.take(i + 1).drop_last() =~= rows@.take(i as int));
        let w = str_width(rows[i].label.as_str());
        widest = match widest {
            None => Some(w),
            Some(m) => Some(
                if w >= m {
                    w
                } else {
                    m
                },
            ),
        };
        i += 1;
    }
    assert(rows@.take(rows@.len() as int) =~= rows@);
    let m: usize = match widest {
        Some(w) => w,
        None => 10,
    };
    if m < 10 {
        10
    } else if m > 20 {
        20
    } else {
        m
    }
}

/// How many rows of the list fit on a terminal `rows` lines tall.
pub fn viewport_capacity(rows: usize) -> (c: usize)
    ensures
        c == if rows > 12 {
            rows - 11
        } else {
            1
        },
{
    let free = if rows > 11 {
        rows - 11
    } else {
        0
    };
    if free > 1 {
        free
    } else {
        1
    }
}

pub proof fn lemma_fit_len_bound(s: Seq<char>, available: nat)
    ensures
        0 <= fit_len(s, available) <= s.len(),
{
    if exists|k: int| first_overflow_at(s, available, k) {
        let k = choose|k: int| first_overflow_at(s, available, k);
        assert(first_overflow_at(s, available, k));
    }
}

pub proof fn lemma_last_space_bound(s: Seq<char>, n: int)
    ensures
        0 <= last_space_before(s, n),
        n > 0 ==> last_space_before(s, n) < n,
    decreases n,
{
    if n > 0 && !is_space(s[n - 1]) {
        lemma_last_space_bound(s, n - 1);
    }
}

/// The position of the last white space among the first `n` characters, or 0.
pub open spec fn last_space_before(s: Seq<char>, n: int) -> int
    decreases n,
{
    if n <= 0 {
        0
    } else if is_space(s[n - 1]) {
        n - 1
    } else {
        last_space_before(s, n - 1)
    }
}

/// The lines taken from `remaining` while fewer than `maximum` lines exist:
/// what fits whole, else what comes before the last space that fits, else
/// the cut text. Returns the lines and what was left over.
pub open spec fn wrap_loop(
    remaining: Seq<char>,
    width: usize,
    maximum: nat,
    lines: Seq<Seq<char>>,
) -> (Seq<Seq<char>>, Seq<char>)
    decreases remaining.len(),
{
    if remaining.len() == 0 || lines.len() >= maximum {
        (lines, remaining)
    } else if columns(remaining) <= width {
        (lines.push(remaining), remaining)
    } else {
        let split = last_space_before(remaining, fit_len(remaining, width as nat));
        if split <= 0 {
            (lines.push(truncated(remaining, width)), Seq::empty())
        } else {
            proof {
                lemma_fit_len_bound(remaining, width as nat);
                lemma_last_space_bound(remaining, fit_len(remaining, width as nat));
                crate::text::lemma_trim_start_len(remaining.skip(split));
            }
            wrap_loop(
                crate::text::trim_start(remaining.skip(split)),
                width,
                maximum,
                lines.push(crate::text::trim_end(remaining.take(split))),
            )
        }
    }
}

/// `value` wrapped into at most `maximum` lines of `width` columns; left-over
/// text is joined onto the last line and cut to fit.
pub open spec fn wrapped(value: Seq<char>, width: usize, maximum: nat) -> Seq<Seq<char>> {
    if width == 0 || maximum == 0 || value.len() == 0 {
        Seq::empty()
    } else {
        let (lines, rest) = wrap_loop(crate::text::trimmed(value), width, maximum, Seq::empty());
        if rest.len() > 0 && lines.len() > 0 {
            lines.update(lines.len() - 1, truncated(lines.last() + " "@ + rest, width))
        } else {
            lines
        }
    }
}


/// A line that holds something and neither starts nor ends with white space.
pub open spec fn tidy_line(s: Seq<char>) -> bool {
    s.len() > 0 && !is_space(s[0]) && !is_space(s.last())
}

proof fn lemma_trim_start_edges(s: Seq<char>)
    ensures
        crate::text::trim_start(s).len() > 0 ==> !is_space(crate::text::trim_start(s)[0]) && crate::text::trim_start(s).last()
            == s.last(),
    decreases s.len(),
{
    if s.len() > 0 && is_space(s[0]) {
        lemma_trim_start_edges(s.drop_first());
    }
}

proof fn lemma_trim_end_edges(s: Seq<char>)
    requires
        s.len() > 0,
        !is_space(s[0]),
    ensures
        crate::text::trim_end(s).len() > 0,
        crate::text::trim_end(s)[0] == s[0],
        !is_space(crate::text::trim_end(s).last()),
    decreases s.len(),
{
    if is_space(s.last()) {
        assert(s.len() > 1);
        lemma_trim_end_edges(s.drop_last());
    }
}

proof fn lemma_trimmed_edges(s: Seq<char>)
    ensures
        crate::text::trimmed(s).len() > 0 ==> tidy_line(crate::text::trimmed(s)),
{
    let t = crate::text::trim_start(s);
    lemma_trim_start_edges(s);
    if t.len() > 0 {
        lemma_trim_end_edges(t);
    }
}

proof fn lemma_truncated_tidy(s: Seq<char>, width: usize)
    requires
        width > 0,
        tidy_line(s),
    ensures
        tidy_line(truncated(s, width)),
{
    if columns(s) > width && width > ellipsis_cells() {
        let k = fit_len(s, (width - ellipsis_cells()) as nat);
        lemma_fit_len_bound(s, (width - ellipsis_cells()) as nat);
        let t = s.take(k).push('…');
        if k > 0 {
            assert(t[0] == s[0]);
        }
        assert(t.last() == '…');
    }
}

proof fn lemma_wrap_loop_lines(remaining: Seq<char>, width: usize, maximum: nat, lines: Seq<Seq<char>>)
    requires
        width > 0,
        remaining.len() > 0 ==> tidy_line(remaining),
        lines.len() <= maximum,
        forall|i: int| 0 <= i < lines.len() ==> tidy_line(#[trigger] lines[i]),
    ensures
        ({
            let (out, rest) = wrap_loop(remaining, width, maximum, lines);
            &&& out.len() <= maximum
            &&& forall|i: int| 0 <= i < out.len() ==> tidy_line(#[trigger] out[i])
            &&& rest.len() > 0 ==> tidy_line(rest)
        }),
    decreases remaining.len(),
{
    if remaining.len() == 0 || lines.len() >= maximum {
    } else if columns(remaining) <= width {
        assert(forall|i: int| 0 <= i < lines.len() ==> lines.push(remaining)[i] == lines[i]);
    } else {
        let split = last_space_before(remaining, fit_len(remaining, width as nat));
        if split <= 0 {
            lemma_truncated_tidy(remaining, width);
            assert(forall|i: int| 0 <= i < lines.len() ==> lines.push(truncated(remaining, width))[i] == lines[i]);
        } else {
            lemma_fit_len_bound(remaining, width as nat);
            lemma_last_space_bound(remaining, fit_len(remaining, width as nat));
            crate::text::lemma_trim_start_len(remaining.skip(split));
            let head = remaining.take(split);
            assert(head[0] == remaining[0]);
            lemma_trim_end_edges(head);
            let line = crate::text::trim_end(head);
            let next = crate::text::trim_start(remaining.skip(split));
            lemma_trim_start_edges(remaining.skip(split));
            assert(remaining.skip(split).last() == remaining.last());
            let more = lines.push(line);
            assert(forall|i: int| 0 <= i < lines.len() ==> more[i] == lines[i]);
            lemma_wrap_loop_lines(next, width, maximum, more);
        }
    }
}

/// Every wrapped line holds something and neither starts nor ends with white
/// space, and there are at most `maximum` of them.
proof fn lemma_wrapped_lines(value: Seq<char>, width: usize, maximum: nat)
    ensures
        wrapped(value, width, maximum).len() <= maximum,
        forall|i: int|
            0 <= i < wrapped(value, width, maximum).len() ==> tidy_line(
                #[trigger] wrapped(value, width, maximum)[i],
            ),
{
    if width == 0 || maximum == 0 || value.len() == 0 {
    } else {
        lemma_trimmed_edges(value);
        lemma_wrap_loop_lines(crate::text::trimmed(value), width, maximum, Seq::empty());
        let (lines, rest) = wrap_loop(crate::text::trimmed(value), width, maximum, Seq::empty());
        if rest.len() > 0 && lines.len() > 0 {
            let joined = lines.last() + " "@ + rest;
            reveal_strlit(" ");
            assert(joined[0] == lines.last()[0]);
            assert(joined.last() == rest.last());
            lemma_truncated_tidy(joined, width);
        }
    }
}

/// Where the scan of `s` for a wrap point stops, and the last space before it.
fn wrap_point(s: &[char], width: usize) -> (r: (usize, usize))
    ensures
        r.0 == fit_len(s@, width as nat),
        r.1 == last_space_before(s@, r.0 as int),
{
    let mut split: usize = 0;
    let mut used: usize = 0;
    let mut i: usize = 0;
    while i < s.len()
        invariant
            i <= s@.len(),
            used == cells(s@.take(i as int)),
            used <= width,
            split == last_space_before(s@, i as int),
            forall|j: int| 0 <= j < i ==> cells(#[trigger] s@.take(j + 1)) <= width,
        ensures
            i <= s@.len(),
            split == last_space_before(s@, i as int),
            i == s@.len() || fit_len(s@, width as nat) == i as int,
            i == s@.len() ==> forall|j: int|
                0 <= j < i ==> cells(#[trigger] s@.take(j + 1)) <= width,
        decreases s.len() - i,
    {
        let w: usize = match char_width(s[i]) {
            Some(w) => w,
            None => 0,
        };
        proof {
            lemma_cells_take_step(s@, i as int);
        }
        if w > width - used {
            proof {
                assert(first_overflow_at(s@, width as nat, i as int));
                let c = choose|c: int| first_overflow_at(s@, width as nat, c);
                assert(c == i as int) by {
                    if c < i {
                    } else if c > i {
                    }
                }
            }
            break;
        }
        used = used + w;
        if space(s[i]) {
            split = i;
        }
        i += 1;
    }
    proof {
        if i == s@.len() {
            assert(!exists|c: int| first_overflow_at(s@, width as nat, c));
        }
    }
    (i, split)
}

/// `value` wrapped into at most `maximum_lines` lines of `width` columns.
pub fn wrap_text(value: &str, width: usize, maximum_lines: usize) -> (out: Vec<String>)
    ensures
        crate::launch::views(out@) == wrapped(value@, width, maximum_lines as nat),
        plain(value@) ==> forall|i: int|
            0 <= i < out@.len() ==> plain(#[trigger] out@[i]@) && out@[i]@.len() <= width
                && columns(out@[i]@) <= width,
        out@.len() <= maximum_lines,
        forall|i: int| 0 <= i < out@.len() ==> tidy_line(#[trigger] out@[i]@),
{
    proof {
        lemma_wrapped_lines(value@, width, maximum_lines as nat);
    }
    let v = chars_of(value);
    if width == 0 || maximum_lines == 0 || v.len() == 0 {
        let out: Vec<String> = Vec::new();
        assert(crate::launch::views(out@) =~= Seq::<Seq<char>>::empty());
        return out;
    }
    let ghost maximum = maximum_lines as nat;
    let ghost target = wrap_loop(crate::text::trimmed(value@), width, maximum, Seq::empty());
    let mut lines: Vec<String> = Vec::new();
    let mut remaining = crate::text::trim(v.as_slice());
    let mut done = false;
    assert(crate::launch::views(lines@) =~= Seq::<Seq<char>>::empty());
    proof {
        if plain(value@) {
            lemma_trim_start_plain(value@);
            lemma_trim_end_plain(crate::text::trim_start(value@));
        }
    }
    while !done && remaining.len() > 0 && lines.len() < maximum_lines
        invariant
            width > 0,
            plain(value@) ==> plain(remaining@),
            plain(value@) ==> forall|i: int|
                0 <= i < lines@.len() ==> plain(#[trigger] lines@[i]@) && lines@[i]@.len() <= width,
            maximum == maximum_lines as nat,
            done ==> (crate::launch::views(lines@), remaining@) == target,
            !done ==> wrap_loop(remaining@, width, maximum, crate::launch::views(lines@)) == target,
        decreases remaining@.len(), (if done {
            0int
        } else {
            1int
        }),
    {
        let ghost before = crate::launch::views(lines@);
        let text = string_of(remaining.as_slice());
        let count = remaining.len();
        if str_width(text.as_str()) <= width {
            assert(remaining@.len() == count);
            lines.push(text);
            assert(crate::launch::views(lines@) =~= before.push(remaining@));
            done = true;
        } else {
            let (fit, split) = wrap_point(remaining.as_slice(), width);
            if split == 0 {
                let cut = truncate_to_width(text.as_str(), width);
                lines.push(cut);
                assert(crate::launch::views(lines@) =~= before.push(truncated(remaining@, width)));
                remaining = Vec::new();
                assert(remaining@ =~= Seq::<char>::empty());
                done = true;
            } else {
                proof {
                    lemma_fit_len_bound(remaining@, width as nat);
                    lemma_last_space_bound(remaining@, fit as int);
                    if plain(value@) {
                        assert(remaining@.len() == count);
                        assert(remaining@.len() > width);
                        lemma_fit_len_plain(remaining@, width as nat);
                        lemma_take_plain(remaining@, split as int);
                        lemma_trim_end_plain(remaining@.take(split as int));
                        lemma_skip_plain(remaining@, split as int);
                        lemma_trim_start_plain(remaining@.skip(split as int));
                    }
                }
                let head = slice_chars(remaining.as_slice(), 0, split);
                let head_trimmed = crate::text::trim_end_chars(head.as_slice());
                let tail = slice_chars(remaining.as_slice(), split, remaining.len());
                let tail_trimmed = crate::text::trim_start_chars(tail.as_slice());
                assert(head@ =~= remaining@.take(split as int));
                assert(tail@ =~= remaining@.skip(split as int));
                lines.push(string_of(head_trimmed.as_slice()));
                assert(crate::launch::views(lines@) =~= before.push(
                    crate::text::trim_end(remaining@.take(split as int)),
                ));
                proof {
                    crate::text::lemma_trim_start_len(remaining@.skip(split as int));
                }
                remaining = tail_trimmed;
            }
        }
    }
    if remaining.len() > 0 && lines.len() > 0 {
        let ghost all = crate::launch::views(lines@);
        let last = lines.pop().unwrap();
        let rest = string_of(remaining.as_slice());
        let joined = join3(last.as_str(), " ", rest.as_str());
        proof {
            if plain(value@) {
                assert(last@ == all[all.len() - 1]);
                reveal_strlit(" ");
                assert(plain(" "@)) by {
                    assert forall|i: int| 0 <= i < " "@.len() implies plain_char(#[trigger] " "@[i]) by {}
                }
                lemma_plain_concat(last@, " "@);
                lemma_plain_concat(last@ + " "@, rest@);
            }
        }
        lines.push(truncate_to_width(joined.as_str(), width));
        assert(crate::launch::views(lines@) =~= all.update(
            all.len() - 1,
            truncated(all.last() + " "@ + remaining@, width),
        ));
    }
    proof {
        let ws = wrapped(value@, width, maximum);
        assert forall|i: int| 0 <= i < lines@.len() implies tidy_line(#[trigger] lines@[i]@) by {
            assert(crate::launch::views(lines@)[i] == lines@[i]@);
            assert(tidy_line(ws[i]));
        }
    }
    lines
}

fn slice_chars(s: &[char], from: usize, to: usize) -> (out: Vec<char>)
    requires
        from <= to <= s@.len(),
    ensures
        out@ == s@.subrange(from as int, to as int),
{
    crate::text::slice_vec(s, from, to)
}


// ---------------------------------------------------------------------------
// The screen.
// ---------------------------------------------------------------------------
/// The terminal's size in columns and rows.
#[derive(Debug, Clone, Copy, PartialEq, Eq, Structural)]
pub struct TerminalSize {
    pub cols: usize,
    pub rows: usize,
}

pub const FIRST_ROW_Y: usize = 7;

/// The plugin whose pane the popup opens, and the pane's entry point.
pub const PLUGIN_ID: &'static str = "herdr-desktop-switcher";

pub const PICKER_ENTRYPOINT: &'static str = "picker";

pub open spec fn capacity_of(rows: usize) -> int {
    if rows > 12 {
        rows - 11
    } else {
        1
    }
}

/// The escape sequence that moves the cursor to the start of `row`.
pub open spec fn cursor_to(row: int) -> Seq<char> {
    "\x1b["@ + crate::text::decimal(row) + ";1H"@
}

/// `value` in the SGR style `code` when styling is on.
pub open spec fn styled(value: Seq<char>, code: Seq<char>, enabled: bool) -> Seq<char> {
    if enabled {
        "\x1b["@ + code + "m"@ + value + "\x1b[0m"@
    } else {
        value
    }
}

pub open spec fn rule_line(n: nat) -> Seq<char> {
    Seq::new(n, |i: int| '─')
}

pub open spec fn body_width_of(cols: usize) -> usize {
    if cols > 9 {
        (cols - 8) as usize
    } else {
        1
    }
}

/// The list's title, with the shown range when not every row fits.
pub open spec fn list_title(state: PickerState, capacity: int) -> Seq<char> {
    let n = state.rows@.len();
    if n > capacity {
        "DESKTOPS   "@ + crate::text::decimal(state.offset + 1) + "-"@ + crate::text::decimal(
            if state.offset + capacity < n {
                state.offset + capacity
            } else {
                n as int
            },
        ) + " of "@ + crate::text::decimal(n as int)
    } else {
        "DESKTOPS"@
    }
}

/// How many rows are shown from the offset on.
pub open spec fn shown_rows(state: PickerState, capacity: int) -> int {
    let left = state.rows@.len() - state.offset;
    if left <= 0 {
        0
    } else if left < capacity {
        left
    } else {
        capacity
    }
}

/// The text of the row shown on line `v` of the list.
pub open spec fn row_segment(state: PickerState, v: int, bw: usize, lw: usize, enabled: bool) -> Seq<char> {
    let row = state.rows@[state.offset + v];
    let selected = state.offset + v == state.selected;
    let text = row_text(row, selected, bw, lw);
    let status = status_text(row.status);
    cursor_to(FIRST_ROW_Y + v) + "    "@ + if selected {
        styled(text, "7;1"@, enabled)
    } else if text.len() >= status.len() && text.skip(text.len() - status.len()) == status {
        text.take(text.len() - status.len()) + styled(
            status,
            if row.status == DesktopStatus::Unknown {
                "2"@
            } else {
                "1"@
            },
            enabled,
        )
    } else {
        text
    }
}

pub open spec fn rows_segment(state: PickerState, n: int, bw: usize, lw: usize, enabled: bool) -> Seq<char>
    decreases n,
{
    if n <= 0 {
        Seq::empty()
    } else {
        rows_segment(state, n - 1, bw, lw, enabled) + row_segment(state, n - 1, bw, lw, enabled)
    }
}

pub open spec fn detail_lines(lines: Seq<Seq<char>>, y: int, n: int) -> Seq<char>
    decreases n,
{
    if n <= 0 {
        Seq::empty()
    } else {
        detail_lines(lines, y, n - 1) + cursor_to(y + n - 1) + "    "@ + lines[n - 1]
    }
}

pub open spec fn notice_segment(notice: Option<Notice>, y: int, bw: usize, enabled: bool) -> Seq<char> {
    match notice {
        None => Seq::empty(),
        Some(Notice::Busy { title }) => cursor_to(y) + "    "@ + styled(
            truncated(title@, bw),
            "1"@,
            enabled,
        ),
        Some(Notice::Error { title, detail }) => {
            let lines = wrapped(detail@, bw, 2);
            cursor_to(y) + "    "@ + styled(truncated(title@, bw), "1"@, enabled) + detail_lines(
                lines,
                y + 1,
                lines.len() as int,
            )
        },
        Some(Notice::Outcome { title, detail }) => cursor_to(y) + "    "@ + styled(
            truncated(title@, bw),
            "1"@,
            enabled,
        ) + cursor_to(y + 1) + "    "@ + styled(truncated(detail@, bw), "2"@, enabled),
    }
}

pub open spec fn divider_row(rows: usize) -> int {
    if rows >= 12 {
        rows - 4
    } else {
        (FIRST_ROW_Y + 1) as int
    }
}

/// The title lines, the rule and the column headers.
pub open spec fn head_part(
    state: PickerState,
    bw: usize,
    lw: usize,
    capacity: int,
    enabled: bool,
) -> Seq<char> {
    let rule = rule_line(bw as nat);
    "\x1b[2J\x1b[H"@ + cursor_to(2) + "    "@ + styled(
        truncated(list_title(state, capacity), bw),
        "2"@,
        enabled,
    ) + cursor_to(3) + "    "@ + styled("Open a Herdr desktop"@, "1"@, enabled) + cursor_to(4)
        + "    "@ + styled(
        truncated("Running clients are focused; others are launched."@, bw),
        "2"@,
        enabled,
    ) + cursor_to(5) + "    "@ + styled(rule, "2"@, enabled) + cursor_to(6) + "    "@ + styled(
        header_line(bw, lw),
        "2"@,
        enabled,
    )
}

/// The lower rule, the notice and the key help.
pub open spec fn tail_part(state: PickerState, size: TerminalSize, bw: usize, enabled: bool) -> Seq<
    char,
> {
    let divider = divider_row(size.rows);
    cursor_to(divider) + "    "@ + styled(rule_line(bw as nat), "2"@, enabled) + notice_segment(
        state.notice,
        divider + 1,
        bw,
        enabled,
    ) + cursor_to(size.rows as int) + "    "@ + styled(
        truncated("Arrows / j k move   Enter open   Esc / q close"@, bw),
        "2"@,
        enabled,
    )
}

/// Everything written to draw the picker on a terminal of `size`.
pub open spec fn screen(state: PickerState, size: TerminalSize, enabled: bool) -> Seq<char> {
    let bw = body_width_of(size.cols);
    let lw = preferred_width_of(state.rows@);
    let capacity = capacity_of(size.rows);
    head_part(state, bw, lw, capacity, enabled) + rows_segment(
        state,
        shown_rows(state, capacity),
        bw,
        lw,
        enabled,
    ) + tail_part(state, size, bw, enabled)
}

pub proof fn lemma_wrap_loop_len(remaining: Seq<char>, width: usize, maximum: nat, lines: Seq<Seq<char>>)
    requires
        lines.len() <= maximum,
    ensures
        wrap_loop(remaining, width, maximum, lines).0.len() <= maximum,
    decreases remaining.len(),
{
    if remaining.len() == 0 || lines.len() >= maximum {
    } else if columns(remaining) <= width {
    } else {
        let split = last_space_before(remaining, fit_len(remaining, width as nat));
        if split > 0 {
            lemma_fit_len_bound(remaining, width as nat);
            lemma_last_space_bound(remaining, fit_len(remaining, width as nat));
            crate::text::lemma_trim_start_len(remaining.skip(split));
            lemma_wrap_loop_len(
                crate::text::trim_start(remaining.skip(split)),
                width,
                maximum,
                lines.push(crate::text::trim_end(remaining.take(split))),
            );
        }
    }
}

fn cursor(row: usize) -> (out: String)
    ensures
        out@ == cursor_to(row as int),
{
    let n = crate::text::decimal_usize(row);
    join3("\x1b[", n.as_str(), ";1H")
}

/// `value` wrapped in the SGR style `code` when `enabled`.
pub fn style(value: &str, code: &str, enabled: bool) -> (out: String)
    ensures
        out@ == styled(value@, code@, enabled),
{
    if enabled {
        let head = crate::text::join4("\x1b[", code, "m", value);
        join2(head.as_str(), "\x1b[0m")
    } else {
        String::from_str(value)
    }
}

/// Appends `cursor_to(row)`, four spaces and `text`.
fn put_line(out: &mut String, row: usize, text: &str)
    ensures
        final(out)@ == old(out)@ + cursor_to(row as int) + "    "@ + text@,
{
    let c = cursor(row);
    out.append(c.as_str());
    out.append("    ");
    out.append(text);
}

fn row_line(state: &PickerState, v: usize, bw: usize, lw: usize, enabled: bool) -> (out: String)
    requires
        state.offset + v < state.rows@.len(),
        FIRST_ROW_Y + v <= usize::MAX,
    ensures
        out@ == row_segment(*state, v as int, bw, lw, enabled),
{
    assert(state.rows@.len() == state.rows.len());
    let index = state.offset + v;
    let row = &state.rows[index];
    let selected = index == state.selected;
    let text = render_row_text(row, selected, bw, lw);
    let status = row.status.label();
    let body = if selected {
        style(text.as_str(), "7;1", enabled)
    } else {
        let chars = chars_of(text.as_str());
        let st = chars_of(status);
        let mut plain = true;
        let mut result = String::new();
        if chars.len() >= st.len() {
            let tail = crate::text::slice_vec(chars.as_slice(), chars.len() - st.len(), chars.len());
            assert(tail@ =~= chars@.skip(chars@.len() - st@.len()));
            if crate::text::same_chars(tail.as_slice(), st.as_slice()) {
                let head = crate::text::string_from(chars.as_slice(), 0, chars.len() - st.len());
                assert(chars@.subrange(0, chars@.len() - st@.len()) =~= chars@.take(
                    chars@.len() - st@.len(),
                ));
                let code = match row.status {
                    DesktopStatus::Unknown => "2",
                    _ => "1",
                };
                let tail_text = style(status, code, enabled);
                result = join2(head.as_str(), tail_text.as_str());
                plain = false;
            }
        }
        if plain {
            text
        } else {
            result
        }
    };
    let mut out = String::new();
    put_line(&mut out, FIRST_ROW_Y + v, body.as_str());
    assert(out@ =~= row_segment(*state, v as int, bw, lw, enabled));
    out
}

fn rule_text(n: usize) -> (out: String)
    ensures
        out@ == rule_line(n as nat),
{
    let mut rule = String::new();
    let mut k: usize = 0;
    while k < n
        invariant
            k <= n,
            rule@ == rule_line(k as nat),
        decreases n - k,
    {
        push_char(&mut rule, '─');
        k += 1;
        assert(rule@ =~= rule_line(k as nat));
    }
    rule
}

fn list_title_text(state: &PickerState, capacity: usize) -> (out: String)
    requires
        capacity >= 1,
        state.rows@.len() > capacity ==> state.offset + capacity <= usize::MAX,
    ensures
        out@ == list_title(*state, capacity as int),
{
    let n = state.rows.len();
    if n > capacity {
        let first = crate::text::decimal_usize(state.offset + 1);
        let last_shown = if state.offset + capacity < n {
            state.offset + capacity
        } else {
            n
        };
        let last = crate::text::decimal_usize(last_shown);
        let count = crate::text::decimal_usize(n);
        let head = crate::text::join4("DESKTOPS   ", first.as_str(), "-", last.as_str());
        let out = join3(head.as_str(), " of ", count.as_str());
        assert(out@ =~= list_title(*state, capacity as int));
        out
    } else {
        String::from_str("DESKTOPS")
    }
}

fn head_text(state: &PickerState, bw: usize, lw: usize, capacity: usize, enabled: bool) -> (out: String)
    requires
        capacity >= 1,
        state.rows@.len() > capacity ==> state.offset + capacity <= usize::MAX,
    ensures
        out@ == head_part(*state, bw, lw, capacity as int, enabled),
{
    let rule = rule_text(bw);
    let title = list_title_text(state, capacity);
    let mut out = String::from_str("\x1b[2J\x1b[H");
    let t = truncate_to_width(title.as_str(), bw);
    let s = style(t.as_str(), "2", enabled);
    put_line(&mut out, 2, s.as_str());
    let s = style("Open a Herdr desktop", "1", enabled);
    put_line(&mut out, 3, s.as_str());
    let t = truncate_to_width("Running clients are focused; others are launched.", bw);
    let s = style(t.as_str(), "2", enabled);
    put_line(&mut out, 4, s.as_str());
    let s = style(rule.as_str(), "2", enabled);
    put_line(&mut out, 5, s.as_str());
    let h = header_text(bw, lw);
    let s = style(h.as_str(), "2", enabled);
    put_line(&mut out, 6, s.as_str());
    assert(out@ =~= head_part(*state, bw, lw, capacity as int, enabled));
    out
}

fn notice_text(notice: &Option<Notice>, y: usize, bw: usize, enabled: bool) -> (out: String)
    requires
        y + 2 <= usize::MAX,
    ensures
        out@ == notice_segment(*notice, y as int, bw, enabled),
{
    let mut out = String::new();
    match notice {
        None => {},
        Some(Notice::Busy { title }) => {
            let t = truncate_to_width(title.as_str(), bw);
            let s = style(t.as_str(), "1", enabled);
            put_line(&mut out, y, s.as_str());
        },
        Some(Notice::Error { title, detail }) => {
            let t = truncate_to_width(title.as_str(), bw);
            let s = style(t.as_str(), "1", enabled);
            put_line(&mut out, y, s.as_str());
            let ghost mid = out@;
            let lines = wrap_text(detail.as_str(), bw, 2);
            let ghost all = crate::launch::views(lines@);
            proof {
                if bw > 0 && detail@.len() > 0 {
                    lemma_wrap_loop_len(crate::text::trimmed(detail@), bw, 2, Seq::empty());
                }
                assert(wrapped(detail@, bw, 2).len() <= 2);
                assert(all.len() == lines@.len());
            }
            let mut i: usize = 0;
            while i < lines.len()
                invariant
                    i <= lines@.len(),
                    all == crate::launch::views(lines@),
                    all == wrapped(detail@, bw, 2),
                    y + 2 <= usize::MAX,
                    lines@.len() <= 2,
                    out@ == mid + detail_lines(all, y + 1, i as int),
                decreases lines.len() - i,
            {
                assert(all[i as int] == lines@[i as int]@);
                put_line(&mut out, y + 1 + i, lines[i].as_str());
                i += 1;
            }
            assert(out@ =~= notice_segment(*notice, y as int, bw, enabled));
        },
        Some(Notice::Outcome { title, detail }) => {
            let t = truncate_to_width(title.as_str(), bw);
            let s = style(t.as_str(), "1", enabled);
            put_line(&mut out, y, s.as_str());
            let t = truncate_to_width(detail.as_str(), bw);
            let s = style(t.as_str(), "2", enabled);
            put_line(&mut out, y + 1, s.as_str());
            assert(out@ =~= notice_segment(*notice, y as int, bw, enabled));
        },
    }
    out
}

fn tail_text(state: &PickerState, size: TerminalSize, bw: usize, enabled: bool) -> (out: String)
    ensures
        out@ == tail_part(*state, size, bw, enabled),
{
    let divider: usize = if size.rows >= 12 {
        size.rows - 4
    } else {
        FIRST_ROW_Y + 1
    };
    let rule = rule_text(bw);
    let mut out = String::new();
    let s = style(rule.as_str(), "2", enabled);
    put_line(&mut out, divider, s.as_str());
    let n = notice_text(&state.notice, divider + 1, bw, enabled);
    out.append(n.as_str());
    let t = truncate_to_width("Arrows / j k move   Enter open   Esc / q close", bw);
    let s = style(t.as_str(), "2", enabled);
    put_line(&mut out, size.rows, s.as_str());
    assert(out@ =~= tail_part(*state, size, bw, enabled));
    out
}

/// Draws the picker: the text to write to a terminal of `size`, with SGR
/// styling when `enabled`.
pub fn screen_text(state: &PickerState, size: TerminalSize, enabled: bool) -> (out: String)
    requires
        state.rows@.len() > capacity_of(size.rows) ==> state.offset + capacity_of(size.rows)
            <= usize::MAX,
    ensures
        out@ == screen(*state, size, enabled),
{
    let bw: usize = if size.cols > 9 {
        size.cols - 8
    } else {
        1
    };
    let lw = preferred_label_width(state.rows.as_slice());
    let capacity = viewport_capacity(size.rows);
    let mut out = head_text(state, bw, lw, capacity, enabled);
    let ghost top = out@;
    let n = state.rows.len();
    let shown: usize = if n <= state.offset {
        0
    } else if n - state.offset < capacity {
        n - state.offset
    } else {
        capacity
    };
    let mut v: usize = 0;
    while v < shown
        invariant
            v <= shown,
            shown as int == shown_rows(*state, capacity as int),
            capacity as int == capacity_of(size.rows),
            shown > 0 ==> state.offset + shown <= state.rows@.len(),
            shown <= capacity,
            capacity <= usize::MAX - FIRST_ROW_Y,
            out@ == top + rows_segment(*state, v as int, bw, lw, enabled),
        decreases shown - v,
    {
        let line = row_line(state, v, bw, lw, enabled);
        out.append(line.as_str());
        v += 1;
    }
    let tail = tail_text(state, size, bw, enabled);
    out.append(tail.as_str());
    out
}


// ---------------------------------------------------------------------------
// Plain output, popup geometry and environment.
// ---------------------------------------------------------------------------
pub open spec fn plain_rows(rows: Seq<PickerRow>) -> Seq<char>
    decreases rows.len(),
{
    if rows.len() == 0 {
        Seq::empty()
    } else {
        let r = rows.last();
        plain_rows(rows.drop_last()) + r.label@ + "\t"@ + r.kind@ + "\t"@ + r.detail@ + "\t"@
            + status_text(r.status) + "\n"@
    }
}

/// The picker as plain lines, for a terminal that is not interactive.
pub open spec fn plain_picker(state: PickerState) -> Seq<char> {
    "Open a Herdr desktop\n"@ + "Running clients are focused; others are launched.\n"@
        + plain_rows(state.rows@) + match state.notice {
        None => Seq::empty(),
        Some(Notice::Busy { title }) => title@ + "\n"@,
        Some(Notice::Error { title, detail }) => title@ + ": "@ + detail@ + "\n"@,
        Some(Notice::Outcome { title, detail }) => title@ + ": "@ + detail@ + "\n"@,
    }
}

pub fn plain_text(state: &PickerState) -> (out: String)
    ensures
        out@ == plain_picker(*state),
{
    let mut out = String::from_str("Open a Herdr desktop\n");
    out.append("Running clients are focused; others are launched.\n");
    let ghost top = out@;
    let mut i: usize = 0;
    while i < state.rows.len()
        invariant
            i <= state.rows@.len(),
            out@ == top + plain_rows(state.rows@.take(i as int)),
        decreases state.rows.len() - i,
    {
        assert(state.rows@.take(i + 1).drop_last() =~= state.rows@.take(i as int));
        let r = &state.rows[i];
        out.append(r.label.as_str());
        out.append("\t");
        out.append(r.kind);
        out.append("\t");
        out.append(r.detail.as_str());
        out.append("\t");
        out.append(r.status.label());
        out.append("\n");
        i += 1;
        assert(out@ =~= top + plain_rows(state.rows@.take(i as int)));
    }
    assert(state.rows@.take(state.rows@.len() as int) =~= state.rows@);
    let ghost before = out@;
    match &state.notice {
        None => {},
        Some(Notice::Busy { title }) => {
            out.append(title.as_str());
            out.append("\n");
        },
        Some(Notice::Error { title, detail }) | Some(Notice::Outcome { title, detail }) => {
            out.append(title.as_str());
            out.append(": ");
            out.append(detail.as_str());
            out.append("\n");
        },
    }
    assert(out@ =~= plain_picker(*state));
    out
}

/// The environment the popup pane is opened with: where the switcher's
/// parts live.
pub open spec fn popup_environment_of(paths: RuntimePaths) -> Seq<(Seq<char>, Seq<char>)> {
    seq![
        ("HERDR_APP_PATH"@, paths.app@),
        ("HERDR_DESKTOP_COMMAND"@, paths.command_shim@),
        ("HERDR_DESKTOPS_TOML"@, paths.config@),
        ("HERDR_DESKTOP_LAUNCHER"@, paths.launcher@),
        ("HERDR_REAL_BIN"@, paths.real_herdr@),
        ("HERDR_SSH_BIN"@, paths.ssh@),
        ("HERDR_DESKTOP_STATE_DIR"@, paths.state_dir@),
    ]
}

pub fn popup_environment(paths: &RuntimePaths) -> (out: Vec<(&'static str, String)>)
    ensures
        out@.map_values(|p: (&'static str, String)| (p.0@, p.1@)) == popup_environment_of(*paths),
{
    let mut out: Vec<(&'static str, String)> = Vec::new();
    out.push(("HERDR_APP_PATH", paths.app.clone()));
    out.push(("HERDR_DESKTOP_COMMAND", paths.command_shim.clone()));
    out.push(("HERDR_DESKTOPS_TOML", paths.config.clone()));
    out.push(("HERDR_DESKTOP_LAUNCHER", paths.launcher.clone()));
    out.push(("HERDR_REAL_BIN", paths.real_herdr.clone()));
    out.push(("HERDR_SSH_BIN", paths.ssh.clone()));
    out.push(("HERDR_DESKTOP_STATE_DIR", paths.state_dir.clone()));
    assert(out@.map_values(|p: (&'static str, String)| (p.0@, p.1@)) =~= popup_environment_of(
        *paths,
    ));
    out
}

/// The columns a desktop's line asks for in the popup.
pub open spec fn desktop_line_width(d: Desktop) -> int {
    let detail = match d.mode {
        DesktopMode::Local => columns("This Mac"@) as int,
        DesktopMode::Remote { target, session, .. } => columns(target@) + columns(
            session@,
        ) + 3,
    };
    columns(d.label@) + detail + 32
}

pub open spec fn widest_line(ds: Seq<Desktop>) -> Option<int>
    decreases ds.len(),
{
    if ds.len() == 0 {
        None
    } else {
        let w = desktop_line_width(ds.last());
        match widest_line(ds.drop_last()) {
            None => Some(w),
            Some(m) => Some(
                if w >= m {
                    w
                } else {
                    m
                },
            ),
        }
    }
}

/// The popup's width and height: wide enough for the widest desktop line
/// within 64..=96 columns, and tall enough for the list within 15..=28 rows;
/// 72 by 15 when the configuration could not be read.
pub open spec fn popup_size(config: Option<DesktopConfig>) -> (int, int) {
    match config {
        None => (72, 15),
        Some(c) => (
            clamped(
                match widest_line(c.desktops@) {
                    Some(w) => w,
                    None => 72,
                },
                64,
                96,
            ),
            clamped(c.desktops@.len() as int + 13, 15, 28),
        ),
    }
}

pub fn popup_dimensions(config: Option<&DesktopConfig>) -> (r: (usize, usize))
    ensures
        (r.0 as int, r.1 as int) == popup_size(
            match config {
                Some(c) => Some(*c),
                None => None,
            },
        ),
{
    let config = match config {
        None => {
            return (72, 15);
        },
        Some(c) => c,
    };
    let mut widest: Option<u128> = None;
    let mut i: usize = 0;
    let local = str_width("This Mac");
    while i < config.desktops.len()
        invariant
            i <= config.desktops@.len(),
            local == columns("This Mac"@),
            match widest {
                Some(w) => widest_line(config.desktops@.take(i as int)) == Some(w as int),
                None => widest_line(config.desktops@.take(i as int)) is None,
            },
        decreases config.desktops.len() - i,
    {
        assert(config.desktops@.take(i + 1).drop_last() =~= config.desktops@.take(i as int));
        let d = &config.desktops[i];
        let detail: u128 = match &d.mode {
            DesktopMode::Local => local as u128,
            DesktopMode::Remote { target, session, .. } => str_width(target.as_str()) as u128
                + str_width(session.as_str()) as u128 + 3,
        };
        let w = str_width(d.label.as_str()) as u128 + detail + 32;
        widest = match widest {
            None => Some(w),
            Some(m) => Some(
                if w >= m {
                    w
                } else {
                    m
                },
            ),
        };
        i += 1;
    }
    assert(config.desktops@.take(config.desktops@.len() as int) =~= config.desktops@);
    let m: u128 = match widest {
        Some(w) => w,
        None => 72,
    };
    let width: usize = if m < 64 {
        64
    } else if m > 96 {
        96
    } else {
        m as usize
    };
    let n = config.desktops.len();
    let height: usize = if n >= 15 {
        28
    } else if n + 13 < 15 {
        15
    } else {
        n + 13
    };
    (width, height)
}

// ---------------------------------------------------------------------------
// Keys.
// ---------------------------------------------------------------------------
#[derive(Debug, Clone, Copy, PartialEq, Eq, Structural)]
pub enum Key {
    Up,
    Down,
    Enter,
    Cancel,
    Click { y: u32 },
    Resize,
    Other,
}

/// From a fresh decoder, one byte other than ESC is a whole key and leaves the
/// decoder fresh: CR or LF opens, `q` or Ctrl-C (byte 3) quits, `k` and `j`
/// move up and down, and any other byte is ignored.
pub proof fn law_single_byte_keys(b: u8, next: KeyDecoder, step: KeyStep)
    requires
        b != 27,
        key_step(KeyDecoder::Start, KeyInput::Byte(b), next, step),
    ensures
        next is Start,
        step is Done,
        step == KeyStep::Done(Key::Enter) <==> (b == 13 || b == 10),
        step == KeyStep::Done(Key::Cancel) <==> (b == 113 || b == 3),
        step == KeyStep::Done(Key::Up) <==> b == 107,
        step == KeyStep::Done(Key::Down) <==> b == 106,
        step == KeyStep::Done(Key::Other) <==> !(b == 13 || b == 10 || b == 113 || b == 3 || b
            == 107 || b == 106),
{
}

/// ESC alone (nothing follows within the wait) quits; ESC `O` `A` and
/// ESC `O` `B` are the arrow keys up and down.
pub proof fn law_escape_keys(
    n1: KeyDecoder,
    s1: KeyStep,
    n2: KeyDecoder,
    s2: KeyStep,
    n3: KeyDecoder,
    s3: KeyStep,
    arrow: u8,
)
    requires
        key_step(KeyDecoder::Start, KeyInput::Byte(27), n1, s1),
    ensures
        n1 is Escape,
        key_step(n1, KeyInput::Quiet, n2, s2) ==> n2 is Start && s2 == KeyStep::Done(Key::Cancel),
        key_step(n1, KeyInput::Byte(91), n2, s2) ==> (n2 matches KeyDecoder::Csi { params }
            && params@.len() == 0),
        key_step(n1, KeyInput::Byte(79), n2, s2) && key_step(n2, KeyInput::Byte(arrow), n3, s3) ==> n3
            is Start && (arrow == 65 ==> s3 == KeyStep::Done(Key::Up)) && (arrow == 66 ==> s3
            == KeyStep::Done(Key::Down)),
{
}

/// A CSI sequence ends at its first byte in 0x40..=0x7e, which leaves the
/// decoder fresh; ending in `A` it is the up arrow and in `B` the down arrow,
/// whatever parameters came before. Any other byte is kept as a parameter
/// and the next one is awaited.
pub proof fn law_csi_sequences(params: Vec<u8>, b: u8, next: KeyDecoder, step: KeyStep)
    requires
        key_step(KeyDecoder::Csi { params }, KeyInput::Byte(b), next, step),
    ensures
        0x40 <= b <= 0x7e ==> next is Start && step is Done,
        b == 65 ==> step == KeyStep::Done(Key::Up),
        b == 66 ==> step == KeyStep::Done(Key::Down),
        !(0x40 <= b <= 0x7e) ==> (next matches KeyDecoder::Csi { params: p } && p@ == params@.push(b))
            && step is ReadWithin,
{
}

/// The text split at semicolons (`str::split(';')`).
pub open spec fn semicolon_fields(t: Seq<char>) -> Seq<Seq<char>>
    decreases t.len(),
{
    if t.len() == 0 {
        seq![Seq::empty()]
    } else {
        let p = semicolon_fields(t.drop_last());
        if t.last() == ';' {
            p.push(Seq::empty())
        } else {
            p.update(p.len() - 1, p.last().push(t.last()))
        }
    }
}

pub proof fn lemma_semicolon_fields_nonempty(t: Seq<char>)
    ensures
        semicolon_fields(t).len() >= 1,
    decreases t.len(),
{
    if t.len() > 0 {
        lemma_semicolon_fields_nonempty(t.drop_last());
    }
}

/// The fields that parse as numbers, in order.
pub open spec fn numbers_of(fields: Seq<Seq<char>>) -> Seq<u32>
    decreases fields.len(),
{
    if fields.len() == 0 {
        Seq::empty()
    } else {
        numbers_of(fields.drop_last()) + match crate::text::parsed_u32(fields.last()) {
            Some(n) => seq![n],
            None => Seq::empty(),
        }
    }
}

/// The numbers of an SGR mouse report's parameters (after its `<`).
pub open spec fn mouse_numbers(params: Seq<u8>) -> Seq<u32> {
    numbers_of(semicolon_fields(crate::launch::lossy(params)))
}

/// The key that a CSI sequence with `params` and `final_byte` stands for.
pub open spec fn csi_key(params: Seq<u8>, final_byte: u8) -> Key {
    if final_byte == 65 {
        Key::Up
    } else if final_byte == 66 {
        Key::Down
    } else if (final_byte == 77 || final_byte == 109) && params.len() > 0 && params[0] == 60 {
        let f = mouse_numbers(params.drop_first());
        if f.len() > 0 && f[0] == 64 && final_byte == 77 {
            Key::Up
        } else if f.len() > 0 && f[0] == 65 && final_byte == 77 {
            Key::Down
        } else if f.len() > 2 && f[0] == 0 && final_byte == 77 {
            Key::Click { y: f[2] }
        } else {
            Key::Other
        }
    } else {
        Key::Other
    }
}

/// Where the reading of one key stands.
#[derive(Debug)]
pub enum KeyDecoder {
    Start,
    Escape,
    Csi { params: Vec<u8> },
    Ss3,
}

/// The next input: a byte, or the report that none came in time.
#[derive(Debug, Clone, Copy, PartialEq, Eq, Structural)]
pub enum KeyInput {
    Byte(u8),
    Quiet,
}

/// A decoded key, or the request to read the next byte if one arrives within
/// the given milliseconds.
#[derive(Debug, Clone, Copy, PartialEq, Eq, Structural)]
pub enum KeyStep {
    Done(Key),
    ReadWithin(i32),
}

/// The decoder's state and step after `input`.
pub open spec fn key_step(d: KeyDecoder, input: KeyInput, next: KeyDecoder, step: KeyStep) -> bool {
    match (d, input) {
        (KeyDecoder::Start, KeyInput::Byte(b)) => if b == 27 {
            next is Escape && step == KeyStep::ReadWithin(300)
        } else {
            next is Start && step == KeyStep::Done(
                if b == 13 || b == 10 {
                    Key::Enter
                } else if b == 113 || b == 3 {
                    Key::Cancel
                } else if b == 107 {
                    Key::Up
                } else if b == 106 {
                    Key::Down
                } else {
                    Key::Other
                },
            )
        },
        (KeyDecoder::Start, KeyInput::Quiet) => next is Start && step == KeyStep::Done(Key::Other),
        (KeyDecoder::Escape, KeyInput::Quiet) => next is Start && step == KeyStep::Done(Key::Cancel),
        (KeyDecoder::Escape, KeyInput::Byte(b)) => if b == 91 {
            (next matches KeyDecoder::Csi { params } && params@.len() == 0) && step
                == KeyStep::ReadWithin(60)
        } else if b == 79 {
            next is Ss3 && step == KeyStep::ReadWithin(60)
        } else {
            next is Start && step == KeyStep::Done(Key::Other)
        },
        (KeyDecoder::Csi { params }, KeyInput::Byte(b)) => if 0x40 <= b <= 0x7e {
            next is Start && step == KeyStep::Done(csi_key(params@, b))
        } else {
            (next matches KeyDecoder::Csi { params: p } && p@ == params@.push(b)) && step
                == KeyStep::ReadWithin(60)
        },
        (KeyDecoder::Csi { params }, KeyInput::Quiet) => next is Start && step == KeyStep::Done(
            csi_key(params@, 0),
        ),
        (KeyDecoder::Ss3, KeyInput::Byte(b)) => next is Start && step == KeyStep::Done(
            if b == 65 {
                Key::Up
            } else if b == 66 {
                Key::Down
            } else {
                Key::Other
            },
        ),
        (KeyDecoder::Ss3, KeyInput::Quiet) => next is Start && step == KeyStep::Done(Key::Other),
    }
}

/// Once a key is decoded the decoder starts over, and it asks for at most
/// one more byte at a time, within 300 milliseconds.
pub proof fn law_decoded_key_resets(d: KeyDecoder, input: KeyInput, next: KeyDecoder, step: KeyStep)
    requires
        key_step(d, input, next, step),
    ensures
        step is Done ==> next is Start,
        step matches KeyStep::ReadWithin(ms) ==> 0 < ms <= 300 && !(next is Start),
{
}

fn split_semicolons(t: &[char]) -> (out: Vec<Vec<char>>)
    ensures
        out@.map_values(|f: Vec<char>| f@) == semicolon_fields(t@),
{
    let mut out: Vec<Vec<char>> = Vec::new();
    out.push(Vec::new());
    let mut i: usize = 0;
    assert(out@.map_values(|f: Vec<char>| f@) =~= semicolon_fields(t@.take(0)));
    while i < t.len()
        invariant
            i <= t@.len(),
            out@.len() >= 1,
            out@.map_values(|f: Vec<char>| f@) == semicolon_fields(t@.take(i as int)),
        decreases t.len() - i,
    {
        let ghost before = out@.map_values(|f: Vec<char>| f@);
        assert(t@.take(i + 1).drop_last() =~= t@.take(i as int));
        if t[i] == ';' {
            out.push(Vec::new());
            assert(out@.map_values(|f: Vec<char>| f@) =~= before.push(Seq::empty()));
        } else {
            let mut last = out.pop().unwrap();
            last.push(t[i]);
            out.push(last);
            assert(out@.map_values(|f: Vec<char>| f@) =~= before.update(
                before.len() - 1,
                before.last().push(t@[i as int]),
            ));
        }
        i += 1;
    }
    assert(t@.take(t@.len() as int) =~= t@);
    out
}

fn mouse_fields(params: &[u8]) -> (out: Vec<u32>)
    ensures
        out@ == mouse_numbers(params@),
{
    let text = crate::launch::from_utf8_lossy(params);
    let chars = chars_of(text.as_str());
    let fields = split_semicolons(chars.as_slice());
    let ghost all = fields@.map_values(|f: Vec<char>| f@);
    let mut out: Vec<u32> = Vec::new();
    let mut i: usize = 0;
    while i < fields.len()
        invariant
            i <= fields@.len(),
            all == fields@.map_values(|f: Vec<char>| f@),
            out@ == numbers_of(all.take(i as int)),
        decreases fields.len() - i,
    {
        assert(all.take(i + 1).drop_last() =~= all.take(i as int));
        assert(all[i as int] == fields@[i as int]@);
        match crate::text::parse_u32(fields[i].as_slice()) {
            Some(n) => {
                out.push(n);
            },
            None => {},
        }
        i += 1;
        assert(out@ =~= numbers_of(all.take(i as int)));
    }
    assert(all.take(all.len() as int) =~= all);
    out
}

fn csi_key_of(params: &Vec<u8>, final_byte: u8) -> (k: Key)
    ensures
        k == csi_key(params@, final_byte),
{
    if final_byte == 65 {
        return Key::Up;
    }
    if final_byte == 66 {
        return Key::Down;
    }
    if (final_byte == 77 || final_byte == 109) && params.len() > 0 && params[0] == 60 {
        let mut rest: Vec<u8> = Vec::new();
        let mut i: usize = 1;
        while i < params.len()
            invariant
                1 <= i <= params@.len(),
                rest@ == params@.subrange(1, i as int),
            decreases params.len() - i,
        {
            rest.push(params[i]);
            i += 1;
            assert(rest@ =~= params@.subrange(1, i as int));
        }
        assert(rest@ =~= params@.drop_first());
        let f = mouse_fields(rest.as_slice());
        if f.len() > 0 && f[0] == 64 && final_byte == 77 {
            return Key::Up;
        }
        if f.len() > 0 && f[0] == 65 && final_byte == 77 {
            return Key::Down;
        }
        if f.len() > 2 && f[0] == 0 && final_byte == 77 {
            return Key::Click { y: f[2] };
        }
        return Key::Other;
    }
    Key::Other
}

impl KeyDecoder {
    pub fn new() -> (d: KeyDecoder)
        ensures
            d is Start,
    {
        KeyDecoder::Start
    }

    /// Takes the next input of the key being read.
    pub fn feed(&mut self, input: KeyInput) -> (step: KeyStep)
        ensures
            key_step(*old(self), input, *final(self), step),
    {
        let mut state = KeyDecoder::Start;
        std::mem::swap(&mut state, self);
        match state {
            KeyDecoder::Start => match input {
                KeyInput::Byte(b) => {
                    if b == 27 {
                        *self = KeyDecoder::Escape;
                        KeyStep::ReadWithin(300)
                    } else {
                        KeyStep::Done(
                            if b == 13 || b == 10 {
                                Key::Enter
                            } else if b == 113 || b == 3 {
                                Key::Cancel
                            } else if b == 107 {
                                Key::Up
                            } else if b == 106 {
                                Key::Down
                            } else {
                                Key::Other
                            },
                        )
                    }
                },
                KeyInput::Quiet => KeyStep::Done(Key::Other),
            },
            KeyDecoder::Escape => match input {
                KeyInput::Quiet => KeyStep::Done(Key::Cancel),
                KeyInput::Byte(b) => {
                    if b == 91 {
                        *self = KeyDecoder::Csi { params: Vec::new() };
                        KeyStep::ReadWithin(60)
                    } else if b == 79 {
                        *self = KeyDecoder::Ss3;
                        KeyStep::ReadWithin(60)
                    } else {
                        KeyStep::Done(Key::Other)
                    }
                },
            },
            KeyDecoder::Csi { params } => match input {
                KeyInput::Byte(b) => {
                    if 0x40 <= b && b <= 0x7e {
                        KeyStep::Done(csi_key_of(&params, b))
                    } else {
                        let mut params = params;
                        params.push(b);
                        *self = KeyDecoder::Csi { params };
                        KeyStep::ReadWithin(60)
                    }
                },
                KeyInput::Quiet => KeyStep::Done(csi_key_of(&params, 0)),
            },
            KeyDecoder::Ss3 => match input {
                KeyInput::Byte(b) => KeyStep::Done(
                    if b == 65 {
                        Key::Up
                    } else if b == 66 {
                        Key::Down
                    } else {
                        Key::Other
                    },
                ),
                KeyInput::Quiet => KeyStep::Done(Key::Other),
            },
        }
    }
}

/// What the picker loop does after a key.
#[derive(Debug, Clone, Copy, PartialEq, Eq, Structural)]
pub enum PickerCommand {
    Quit,
    Redraw,
    Launch,
}

impl PickerState {
    /// Applies a key to the picker; `capacity` is how many rows the list
    /// showed when the key came. A click on a shown row selects and opens it.
    pub fn handle_key(&mut self, key: Key, capacity: usize) -> (c: PickerCommand)
        requires
            key is Down && old(self).rows@.len() > 0 ==> old(self).selected < usize::MAX,
        ensures
            final(self).rows == old(self).rows,
            final(self).offset == old(self).offset,
            final(self).notice == old(self).notice,
            old(self).selected < old(self).rows@.len() ==> final(self).selected
                < final(self).rows@.len(),
            match key {
                Key::Cancel => c == PickerCommand::Quit && final(self).selected == old(self).selected,
                Key::Enter => final(self).selected == old(self).selected && c == if old(
                    self,
                ).rows@.len() > 0 {
                    PickerCommand::Launch
                } else {
                    PickerCommand::Redraw
                },
                Key::Up => c == PickerCommand::Redraw && final(self).selected == if old(
                    self,
                ).rows@.len() == 0 {
                    old(self).selected as int
                } else if old(self).selected == 0 {
                    old(self).rows@.len() - 1
                } else {
                    old(self).selected - 1
                },
                Key::Down => c == PickerCommand::Redraw && final(self).selected == if old(
                    self,
                ).rows@.len() == 0 {
                    old(self).selected as int
                } else {
                    (old(self).selected + 1) % (old(self).rows@.len() as int)
                },
                Key::Click { y } => {
                    let visible = y - FIRST_ROW_Y;
                    let index = old(self).offset + visible;
                    if y >= FIRST_ROW_Y && visible < capacity && index < old(self).rows@.len() {
                        c == PickerCommand::Launch && final(self).selected == index
                    } else {
                        c == PickerCommand::Redraw && final(self).selected == old(self).selected
                    }
                },
                _ => c == PickerCommand::Redraw && final(self).selected == old(self).selected,
            },
    {
        match key {
            Key::Up => {
                self.move_up();
                PickerCommand::Redraw
            },
            Key::Down => {
                self.move_down();
                PickerCommand::Redraw
            },
            Key::Enter => {
                if self.rows.len() > 0 {
                    PickerCommand::Launch
                } else {
                    PickerCommand::Redraw
                }
            },
            Key::Click { y } => {
                let count = self.rows.len();
                let row = y as usize;
                if row >= FIRST_ROW_Y {
                    let visible = row - FIRST_ROW_Y;
                    if visible < capacity {
                        match self.offset.checked_add(visible) {
                            Some(index) => {
                                if index < count {
                                    self.selected = index;
                                    return PickerCommand::Launch;
                                }
                            },
                            None => {},
                        }
                    }
                }
                PickerCommand::Redraw
            },
            Key::Cancel => PickerCommand::Quit,
            Key::Resize | Key::Other => PickerCommand::Redraw,
        }
    }
}

/// The picker as it opens: the configured desktops with the registry's
/// running status, or an error notice when either could not be read.
pub open spec fn opens_with(
    config: Result<DesktopConfig, String>,
    live: Result<Vec<InstanceRecord>, String>,
    s: PickerState,
) -> bool {
    &&& s.selected == 0
    &&& s.offset == 0
    &&& match config {
        Err(e) => s.rows@.len() == 0 && (s.notice matches Some(Notice::Error { title, detail })
            && title@ == "Desktop list unavailable"@ && detail@ == sanitized(e@)),
        Ok(c) => match live {
            Ok(records) => s.notice is None && s.rows@.len() == listed_desktops(c).len()
                && forall|i: int|
                0 <= i < s.rows@.len() ==> row_shows(
                    #[trigger] s.rows@[i],
                    listed_desktops(c)[i],
                    records@,
                ),
            Err(e) => (s.notice matches Some(Notice::Error { title, detail }) && title@
                == "Running status unavailable"@ && detail@ == sanitized(e@))
                && s.rows@.len() == listed_desktops(c).len() && forall|i: int|
                0 <= i < s.rows@.len() ==> row_shows(
                    #[trigger] s.rows@[i],
                    listed_desktops(c)[i],
                    Seq::<InstanceRecord>::empty(),
                ),
        },
    }
}

/// The picker's state as it opens.
pub fn opening_state(
    config: &Result<DesktopConfig, String>,
    live: &Result<Vec<InstanceRecord>, String>,
) -> (s: PickerState)
    ensures
        opens_with(*config, *live, s),
{
    match config {
        Err(e) => {
            let mut state = PickerState::new(Vec::new());
            state.set_system_error("Desktop list unavailable", e.as_str());
            state
        },
        Ok(c) => match live {
            Ok(records) => PickerState::new(build_rows(c, records.as_slice())),
            Err(e) => {
                let none: Vec<InstanceRecord> = Vec::new();
                let mut state = PickerState::new(build_rows(c, none.as_slice()));
                assert(none@ =~= Seq::<InstanceRecord>::empty());
                state.set_system_error("Running status unavailable", e.as_str());
                state
            },
        },
    }
}


/// How the picker starts: in a terminal it runs with its opening state;
/// elsewhere it prints the list as plain text and fails.
#[derive(Debug)]
pub enum PickerStart {
    Interactive(PickerState),
    Plain { text: String, error: String },
}

/// The picker's start, from the configuration, the pruned registry, and
/// whether the terminal is interactive.
pub fn picker(
    config: &Result<DesktopConfig, String>,
    live: &Result<Vec<InstanceRecord>, String>,
    interactive: bool,
) -> (start: PickerStart)
    ensures
        match start {
            PickerStart::Interactive(s) => interactive && opens_with(*config, *live, s),
            PickerStart::Plain { text, error } => !interactive && (exists|s: PickerState|
                opens_with(*config, *live, s) && text@ == plain_picker(s))
                && error@ == "picker requires an interactive terminal"@,
        },
{
    let state = opening_state(config, live);
    if interactive {
        PickerStart::Interactive(state)
    } else {
        let text = plain_text(&state);
        assert(opens_with(*config, *live, state) && text@ == plain_picker(state));
        PickerStart::Plain {
            text,
            error: String::from_str("picker requires an interactive terminal"),
        }
    }
}

} // verus!
