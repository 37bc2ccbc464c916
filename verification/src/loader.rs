use vstd::prelude::*;
use vstd::string::StrSliceExecFns;

verus! {

/// Whether `c` is a decimal digit.
pub open spec fn is_digit(c: char) -> bool {
    48 <= c as u32 <= 57
}

/// Every character of `s` is a decimal digit.
pub open spec fn spec_all_digits(s: Seq<char>) -> bool {
    forall|i: int| 0 <= i < s.len() ==> is_digit(#[trigger] s[i])
}

/// The number a digit string denotes.
pub open spec fn spec_digits_val(s: Seq<char>) -> int
    decreases s.len(),
{
    if s.len() == 0 {
        0
    } else {
        spec_digits_val(s.drop_last()) * 10 + (s.last() as u32 - 48)
    }
}

/// The first position of `ch` in `s`, or the length if it never occurs.
pub open spec fn find_char(s: Seq<char>, ch: char) -> int
    decreases s.len(),
{
    if s.len() == 0 {
        0
    } else if s[0] == ch {
        0
    } else {
        1 + find_char(s.drop_first(), ch)
    }
}

/// The pieces of `s` between occurrences of `sep`, in order; `n + 1` pieces
/// for `n` separators.
pub open spec fn spec_split(s: Seq<char>, sep: char) -> Seq<Seq<char>>
    decreases s.len(),
{
    let f = find_char(s, sep);
    if 0 <= f < s.len() {
        seq![s.take(f)] + spec_split(s.skip(f + 1), sep)
    } else {
        seq![s]
    }
}

/// `find_char` is pinned down by a no-occurrence prefix and a hit (or the
/// end) at its boundary.
proof fn lemma_find_char_at(s: Seq<char>, ch: char, i: int)
    requires
        0 <= i <= s.len(),
        forall|j: int| 0 <= j < i ==> s[j] != ch,
        i < s.len() ==> s[i] == ch,
    ensures
        find_char(s, ch) == i,
    decreases i,
{
    if s.len() > 0 {
        if i == 0 {
        } else {
            assert(s[0] != ch);
            assert forall|j: int| 0 <= j < i - 1 implies s.drop_first()[j] != ch by {
                assert(s.drop_first()[j] == s[j + 1]);
            }
            assert(i - 1 < s.drop_first().len() ==> s.drop_first()[i - 1] == ch);
            lemma_find_char_at(s.drop_first(), ch, i - 1);
        }
    }
}

/// `find_char` stays within the sequence.
proof fn lemma_find_char_le_len(s: Seq<char>, ch: char)
    ensures
        0 <= find_char(s, ch) <= s.len(),
        find_char(s, ch) < s.len() ==> s[find_char(s, ch)] == ch,
        forall|j: int| 0 <= j < find_char(s, ch) ==> s[j] != ch,
    decreases s.len(),
{
    if s.len() > 0 && s[0] != ch {
        lemma_find_char_le_len(s.drop_first(), ch);
        assert forall|j: int| 0 <= j < find_char(s, ch) implies s[j] != ch by {
            if j > 0 {
                assert(s.drop_first()[j - 1] == s[j]);
            }
        }
        assert(s.drop_first()[find_char(s.drop_first(), ch)] == s[find_char(s, ch)]
            || find_char(s.drop_first(), ch) == s.drop_first().len());
    }
}

/// A digit string's value only grows as more digits are appended.
proof fn lemma_digits_val_prefix_le(s: Seq<char>, i: int, j: int)
    requires
        0 <= i <= j <= s.len(),
        forall|k: int| 0 <= k < j ==> is_digit(#[trigger] s[k]),
    ensures
        0 <= spec_digits_val(s.take(i)) <= spec_digits_val(s.take(j)),
    decreases j - i,
{
    if i == j {
        lemma_digits_val_nonneg(s.take(i));
    } else {
        lemma_digits_val_prefix_le(s, i, j - 1);
        assert(s.take(j).drop_last() =~= s.take(j - 1));
        assert(is_digit(s.take(j).last()));
    }
}

/// A digit string's value is nonnegative.
proof fn lemma_digits_val_nonneg(p: Seq<char>)
    requires
        forall|k: int| 0 <= k < p.len() ==> is_digit(#[trigger] p[k]),
    ensures
        spec_digits_val(p) >= 0,
    decreases p.len(),
{
    if p.len() > 0 {
        assert forall|k: int| 0 <= k < p.drop_last().len() implies is_digit(
            #[trigger] p.drop_last()[k],
        ) by {
            assert(p.drop_last()[k] == p[k]);
        }
        lemma_digits_val_nonneg(p.drop_last());
        assert(is_digit(p.last()));
    }
}

/// Find the first occurrence of `sep`, or the end of the string.
pub fn find_char_index(s: &str, sep: char) -> (r: usize)
    ensures
        r == find_char(s@, sep),
{
    let n = s.unicode_len();
    let mut i: usize = 0;
    while i < n && s.get_char(i) != sep
        invariant
            n == s@.len(),
            0 <= i <= n,
            forall|j: int| 0 <= j < i ==> s@[j] != sep,
        decreases n - i,
    {
        i += 1;
    }
    proof {
        lemma_find_char_at(s@, sep, i as int);
    }
    i
}

/// Parse a whole decimal string, refusing anything empty, non-numeric or out
/// of the `u32` range.
pub fn try_parse_u32(s: &str) -> (r: Option<u32>)
    ensures
        r is Some <==> (spec_all_digits(s@) && s@.len() >= 1 && spec_digits_val(s@)
            <= u32::MAX),
        r matches Some(v) ==> v == spec_digits_val(s@),
{
    let n = s.unicode_len();
    if n == 0 {
        return None;
    }
    let mut acc: u32 = 0;
    let mut i: usize = 0;
    while i < n
        invariant
            n == s@.len(),
            0 <= i <= n,
            forall|j: int| 0 <= j < i ==> is_digit(#[trigger] s@[j]),
            acc == spec_digits_val(s@.take(i as int)),
        decreases n - i,
    {
        let c = s.get_char(i);
        let cv = c as u32;
        if cv < 48 || cv > 57 {
            return None;
        }
        let d: u32 = cv - 48;
        if acc > (u32::MAX - d) / 10 {
            // The prefix already exceeds the range, so the whole string can
            // only be larger (or fail the digit test anyway).
            proof {
                if spec_all_digits(s@) {
                    lemma_digits_val_prefix_le(s@, i + 1, n as int);
                    assert(s@.take(i + 1).drop_last() =~= s@.take(i as int));
                    assert(s@.take(i + 1).last() == s@[i as int]);
                    assert(s@.take(n as int) =~= s@);
                }
            }
            return None;
        }
        proof {
            assert(s@.take(i + 1).drop_last() =~= s@.take(i as int));
            assert(s@.take(i + 1).last() == s@[i as int]);
        }
        acc = acc * 10 + d;
        i += 1;
    }
    proof {
        assert(s@.take(n as int) =~= s@);
    }
    Some(acc)
}

/// A well-formed sample cell: the characters before the first `.` form a
/// nonempty digit string that fits `u32`.
pub open spec fn wf_cell(s: Seq<char>) -> bool {
    let p = s.take(find_char(s, '.'));
    &&& spec_all_digits(p)
    &&& p.len() >= 1
    &&& spec_digits_val(p) <= u32::MAX
}

/// Whether a sample cell can be read.
pub fn check_cell(s: &str) -> (b: bool)
    ensures
        b == wf_cell(s@),
{
    let end = find_char_index(s, '.');
    proof {
        lemma_find_char_le_len(s@, '.');
    }
    let prefix = s.substring_char(0, end);
    proof {
        assert(prefix@ =~= s@.take(end as int));
    }
    try_parse_u32(prefix).is_some()
}

/// Read the integer part of a sample cell: the digits before the first `.`.
///
/// Cells with no dot are read whole; the cell must be well formed.
pub fn truncate_val(val_str: &str) -> (r: u32)
    requires
        wf_cell(val_str@),
    ensures
        r == spec_digits_val(val_str@.take(find_char(val_str@, '.'))),
{
    let end = find_char_index(val_str, '.');
    proof {
        lemma_find_char_le_len(val_str@, '.');
    }
    let prefix = val_str.substring_char(0, end);
    proof {
        assert(prefix@ =~= val_str@.take(end as int));
    }
    match try_parse_u32(prefix) {
        Some(v) => v,
        None => {
            proof {
                assert(false);
            }
            0
        },
    }
}

/// Split a string at every occurrence of `sep`; `n` separators give `n + 1`
/// pieces, empty pieces included.
pub fn split_char(s: &str, sep: char) -> (r: Vec<String>)
    ensures
        r.deep_view() == spec_split(s@, sep),
        r@.len() >= 1,
{
    let n = s.unicode_len();
    let mut out: Vec<String> = Vec::new();
    let mut start: usize = 0;
    let mut i: usize = 0;
    proof {
        assert(s@.skip(0) =~= s@);
    }
    while i < n
        invariant
            n == s@.len(),
            0 <= start <= i <= n,
            forall|j: int| start <= j < i ==> s@[j] != sep,
            spec_split(s@, sep) =~= out.deep_view() + spec_split(s@.skip(start as int), sep),
        decreases n - i,
    {
        if s.get_char(i) == sep {
            let ghost rest = s@.skip(start as int);
            proof {
                assert forall|j: int| 0 <= j < i - start implies rest[j] != sep by {
                    assert(rest[j] == s@[start + j]);
                }
                assert(rest[i - start] == s@[i as int]);
                lemma_find_char_at(rest, sep, i - start);
                assert(rest.take(i - start) =~= s@.subrange(start as int, i as int));
                assert(rest.skip(i - start + 1) =~= s@.skip(i + 1));
            }
            let piece = s.substring_char(start, i).to_owned();
            let g: Ghost<Seq<Seq<char>>> = Ghost(out.deep_view());
            out.push(piece);
            proof {
                assert(out.deep_view() =~= g@.push(s@.subrange(start as int, i as int)));
                assert(spec_split(s@, sep) =~= out.deep_view() + spec_split(s@.skip(i + 1), sep));
            }
            start = i + 1;
        }
        i += 1;
    }
    let ghost rest = s@.skip(start as int);
    proof {
        assert forall|j: int| 0 <= j < n - start implies rest[j] != sep by {
            assert(rest[j] == s@[start + j]);
        }
        lemma_find_char_at(rest, sep, n - start);
    }
    let piece = s.substring_char(start, n).to_owned();
    let g: Ghost<Seq<Seq<char>>> = Ghost(out.deep_view());
    out.push(piece);
    proof {
        assert(rest =~= s@.subrange(start as int, n as int));
        assert(out.deep_view() =~= g@.push(rest));
        assert(spec_split(rest, sep) =~= seq![rest]);
        assert(out.deep_view() =~= g@ + spec_split(rest, sep));
    }
    out
}

/// One raw telemetry channel as the loader hands it to the pipeline.
pub struct RawPotData {
    /// The calibration reference key this channel is remapped through.
    pub remap_ref: String,
    /// The sampling frequency the channel was recorded at, in hertz.
    pub polling_rate: u32,
    /// The raw sensor counts, one per tick.
    pub data: Vec<u32>,
}

/// Holds the raw channels of one telemetry run, keyed by channel tag.
pub struct Loader {
    pub raw_pot_datas: Vec<(String, RawPotData)>,
}

/// First channel stored under `key`.
pub open spec fn spec_pot_lookup(entries: Seq<(String, RawPotData)>, key: Seq<char>) -> Option<
    int,
>
    decreases entries.len(),
{
    if entries.len() == 0 {
        None
    } else if entries[0].0@ == key {
        Some(0)
    } else {
        match spec_pot_lookup(entries.drop_first(), key) {
            Some(i) => Some(i + 1),
            None => None,
        }
    }
}

/// A well-formed metadata entry: at least `tag:rate:reference`, with a
/// numeric rate.
pub open spec fn wf_metadata_entry(e: Seq<char>) -> bool {
    let parts = spec_split(e, ':');
    &&& parts.len() >= 3
    &&& spec_all_digits(parts[1])
    &&& parts[1].len() >= 1
    &&& spec_digits_val(parts[1]) <= u32::MAX
}

/// The channel tag of a metadata entry.
pub open spec fn entry_tag(e: Seq<char>) -> Seq<char> {
    spec_split(e, ':')[0]
}

/// The polling rate of a metadata entry.
pub open spec fn entry_rate(e: Seq<char>) -> int {
    spec_digits_val(spec_split(e, ':')[1])
}

/// The calibration reference of a metadata entry.
pub open spec fn entry_ref(e: Seq<char>) -> Seq<char> {
    spec_split(e, ':')[2]
}

/// A well-formed data row for `nch` channels: no cells beyond the channel
/// columns, and every channel cell readable.
pub open spec fn wf_row(row: Seq<char>, nch: int) -> bool {
    let cells = spec_split(row, ',');
    &&& cells.len() <= 6 + nch
    &&& forall|i: int| 6 <= i < cells.len() ==> wf_cell(#[trigger] cells[i])
}

/// A well-formed telemetry run: a metadata header naming distinct channel
/// tags, then rows whose channel cells are readable.
pub open spec fn wf_run_lines(ls: Seq<Seq<char>>) -> bool {
    &&& ls.len() >= 1
    &&& {
        let md = spec_split(ls[0], ',');
        &&& forall|c: int| 0 <= c < md.len() ==> wf_metadata_entry(#[trigger] md[c])
        &&& forall|c1: int, c2: int|
            #![trigger md[c1], md[c2]]
            0 <= c1 < c2 < md.len() ==> entry_tag(md[c1]) != entry_tag(md[c2])
        &&& forall|r: int| 1 <= r < ls.len() ==> wf_row(#[trigger] ls[r], md.len() as int)
    }
}

/// The samples of channel `c`: the value of cell `6 + c` of every row that
/// reaches that column, in row order.
pub open spec fn spec_channel_samples(rows: Seq<Seq<char>>, c: int) -> Seq<u32>
    decreases rows.len(),
{
    if rows.len() == 0 {
        Seq::empty()
    } else {
        let pre = spec_channel_samples(rows.drop_last(), c);
        let cells = spec_split(rows.last(), ',');
        if cells.len() > 6 + c {
            pre.push(spec_digits_val(cells[6 + c].take(find_char(cells[6 + c], '.'))) as u32)
        } else {
            pre
        }
    }
}

impl Loader {
    /// An empty loader with no channels.
    pub fn new() -> (r: Loader)
        ensures
            r.raw_pot_datas@.len() == 0,
    {
        Loader { raw_pot_datas: Vec::new() }
    }

    /// Borrow the channel stored under `key`; the key must be present.
    pub fn get_raw_pot_data(&self, key: String) -> (r: &RawPotData)
        requires
            spec_pot_lookup(self.raw_pot_datas@, key@) is Some,
        ensures
            Some(r) == (match spec_pot_lookup(self.raw_pot_datas@, key@) {
                Some(i) => Some(&self.raw_pot_datas@[i].1),
                None => None,
            }),
    {
        let n = self.raw_pot_datas.len();
        let mut i: usize = 0;
        while i < n
            invariant
                n == self.raw_pot_datas@.len(),
                0 <= i <= n,
                forall|j: int| 0 <= j < i ==> self.raw_pot_datas@[j].0@ != key@,
                spec_pot_lookup(self.raw_pot_datas@, key@) is Some,
            decreases n - i,
        {
            if self.raw_pot_datas[i].0 == key {
                proof {
                    lemma_pot_lookup_at(self.raw_pot_datas@, key@, i as int);
                }
                return &self.raw_pot_datas[i].1;
            }
            i += 1;
        }
        proof {
            lemma_pot_lookup_none(self.raw_pot_datas@, key@, n as int);
            assert(false);
        }
        &self.raw_pot_datas[0].1
    }
}

impl Loader {
    /// Parse a telemetry run: the first line holds one `tag:rate:reference`
    /// metadata entry per channel, and every further line holds six leading
    /// columns followed by one sample cell per channel.
    ///
    /// Returns whether the lines were well formed; on a malformed run the
    /// loader keeps its previous channels, so a failed reload leaves the
    /// last good state in place.
    pub fn load_from_lines(&mut self, lines: &Vec<String>) -> (ok: bool)
        ensures
            ok == wf_run_lines(lines.deep_view()),
            !ok ==> *final(self) == *old(self),
            ok ==> ({
                let ls = lines.deep_view();
                let md = spec_split(ls[0], ',');
                &&& final(self).raw_pot_datas@.len() == md.len()
                &&& forall|c: int|
                    0 <= c < md.len() ==> {
                        &&& (#[trigger] final(self).raw_pot_datas@[c]).0@ == entry_tag(md[c])
                        &&& final(self).raw_pot_datas@[c].1.remap_ref@ == entry_ref(md[c])
                        &&& final(self).raw_pot_datas@[c].1.polling_rate == entry_rate(md[c])
                        &&& final(self).raw_pot_datas@[c].1.data@ == spec_channel_samples(
                            ls.skip(1),
                            c,
                        )
                    }
            }),
    {
        let ghost ls = lines.deep_view();
        if lines.len() == 0 {
            return false;
        }
        let md = split_char(lines[0].as_str(), ',');
        proof {
            assert(lines@[0]@ == ls[0]);
        }
        let nch = md.len();

        let mut new_datas: Vec<(String, RawPotData)> = Vec::new();
        let mut c: usize = 0;
        while c < nch
            invariant
                ls == lines.deep_view(),
                ls.len() >= 1,
                md.deep_view() == spec_split(ls[0], ','),
                nch == md@.len(),
                0 <= c <= nch,
                new_datas@.len() == c,
                forall|cc: int| 0 <= cc < c ==> wf_metadata_entry(#[trigger] md.deep_view()[cc]),
                forall|cc: int|
                    0 <= cc < c ==> {
                        &&& (#[trigger] new_datas@[cc]).0@ == entry_tag(md.deep_view()[cc])
                        &&& new_datas@[cc].1.remap_ref@ == entry_ref(md.deep_view()[cc])
                        &&& new_datas@[cc].1.polling_rate == entry_rate(md.deep_view()[cc])
                    },
                forall|c1: int, c2: int|
                    #![trigger new_datas@[c1], new_datas@[c2]]
                    0 <= c1 < c2 < c ==> new_datas@[c1].0@ != new_datas@[c2].0@,
                *self == *old(self),
            decreases nch - c,
        {
            let parts = split_char(md[c].as_str(), ':');
            proof {
                assert(md@[c as int]@ == md.deep_view()[c as int]);
            }
            if parts.len() < 3 {
                proof {
                    if wf_run_lines(ls) {
                        assert(wf_metadata_entry(md.deep_view()[c as int]));
                    }
                }
                return false;
            }
            let rate = match try_parse_u32(parts[1].as_str()) {
                Some(v) => v,
                None => {
                    proof {
                        assert(parts@[1]@ == parts.deep_view()[1]);
                        if wf_run_lines(ls) {
                            assert(wf_metadata_entry(md.deep_view()[c as int]));
                        }
                    }
                    return false;
                },
            };
            proof {
                assert(parts@[1]@ == parts.deep_view()[1]);
            }
            let tag = parts[0].clone();
            proof {
                assert(tag@ == parts.deep_view()[0]);
            }
            let mut t: usize = 0;
            while t < c
                invariant
                    0 <= t <= c,
                    c <= new_datas@.len(),
                    ls == lines.deep_view(),
                    ls.len() >= 1,
                    md.deep_view() == spec_split(ls[0], ','),
                    c < md@.len(),
                    tag@ == entry_tag(md.deep_view()[c as int]),
                    forall|tt: int|
                        0 <= tt < c ==> (#[trigger] new_datas@[tt]).0@ == entry_tag(
                            md.deep_view()[tt],
                        ),
                    forall|tt: int| 0 <= tt < t ==> (#[trigger] new_datas@[tt]).0@ != tag@,
                decreases c - t,
            {
                if new_datas[t].0 == tag {
                    proof {
                        assert(new_datas@[t as int].0@ == tag@);
                        assert(entry_tag(md.deep_view()[t as int]) == entry_tag(
                            md.deep_view()[c as int],
                        ));
                        if wf_run_lines(ls) {
                            assert(entry_tag(spec_split(ls[0], ',')[t as int]) != entry_tag(
                                spec_split(ls[0], ',')[c as int],
                            ));
                        }
                    }
                    return false;
                }
                t += 1;
            }
            let rref = parts[2].clone();
            proof {
                assert(rref@ == parts.deep_view()[2]);
            }
            let ghost gtag = tag@;
            let ghost gref = rref@;
            let gi: Ghost<Seq<(String, RawPotData)>> = Ghost(new_datas@);
            new_datas.push(
                (tag, RawPotData { remap_ref: rref, polling_rate: rate, data: Vec::new() }),
            );
            proof {
                let newe = new_datas@.last();
                assert(new_datas@ == gi@.push(newe));
                assert(newe.0@ == gtag && newe.1.remap_ref@ == gref && newe.1.polling_rate
                    == rate);
                assert forall|cc: int|
                    0 <= cc < new_datas@.len() implies {
                    &&& (#[trigger] new_datas@[cc]).0@ == entry_tag(md.deep_view()[cc])
                    &&& new_datas@[cc].1.remap_ref@ == entry_ref(md.deep_view()[cc])
                    &&& new_datas@[cc].1.polling_rate == entry_rate(md.deep_view()[cc])
                } by {
                    if cc < gi@.len() {
                        assert(new_datas@[cc] == gi@[cc]);
                    } else {
                        assert(new_datas@[cc] == newe);
                    }
                }
                assert forall|c1: int, c2: int|
                    #![trigger new_datas@[c1], new_datas@[c2]]
                    0 <= c1 < c2 < new_datas@.len() implies new_datas@[c1].0@ != new_datas@[c2].0@
                by {
                    if c2 < gi@.len() {
                        assert(new_datas@[c1] == gi@[c1] && new_datas@[c2] == gi@[c2]);
                    } else {
                        assert(new_datas@[c1] == gi@[c1] && new_datas@[c2] == newe);
                    }
                }
            }
            c += 1;
        }

        let nlines = lines.len();
        let mut r: usize = 1;
        while r < nlines
            invariant
                ls == lines.deep_view(),
                ls.len() >= 1,
                nlines == lines@.len(),
                md.deep_view() == spec_split(ls[0], ','),
                nch == md@.len(),
                1 <= r <= nlines,
                forall|rr: int| 1 <= rr < r ==> wf_row(#[trigger] ls[rr], nch as int),
                *self == *old(self),
            decreases nlines - r,
        {
            let cells = split_char(lines[r].as_str(), ',');
            proof {
                assert(lines@[r as int]@ == ls[r as int]);
            }
            if cells.len() > 6 && cells.len() - 6 > nch {
                proof {
                    if wf_run_lines(ls) {
                        assert(wf_row(ls[r as int], nch as int));
                    }
                }
                return false;
            }
            let ncells = cells.len();
            let mut ci: usize = 6;
            while ci < ncells
                invariant
                    ncells == cells@.len(),
                    cells.deep_view() == spec_split(ls[r as int], ','),
                    6 <= ci,
                    ls == lines.deep_view(),
                    nlines == lines@.len(),
                    1 <= r < nlines,
                    md.deep_view() == spec_split(ls[0], ','),
                    nch == md@.len(),
                    forall|ii: int| 6 <= ii < ci ==> wf_cell(#[trigger] cells.deep_view()[ii]),
                decreases ncells - ci,
            {
                proof {
                    assert(cells@[ci as int]@ == cells.deep_view()[ci as int]);
                }
                if !check_cell(cells[ci].as_str()) {
                    proof {
                        if wf_run_lines(ls) {
                            assert(wf_row(ls[r as int], nch as int));
                            assert(wf_cell(spec_split(ls[r as int], ',')[ci as int]));
                        }
                    }
                    return false;
                }
                ci += 1;
            }
            r += 1;
        }
        proof {
            let mdv = spec_split(ls[0], ',');
            assert forall|cc: int| 0 <= cc < mdv.len() implies wf_metadata_entry(
                #[trigger] mdv[cc],
            ) by {
                assert(wf_metadata_entry(md.deep_view()[cc]));
            }
            assert forall|c1: int, c2: int|
                #![trigger mdv[c1], mdv[c2]]
                0 <= c1 < c2 < mdv.len() implies entry_tag(mdv[c1]) != entry_tag(mdv[c2]) by {
                assert(new_datas@[c1].0@ == entry_tag(md.deep_view()[c1]));
                assert(new_datas@[c2].0@ == entry_tag(md.deep_view()[c2]));
                assert(new_datas@[c1].0@ != new_datas@[c2].0@);
            }
            assert(wf_run_lines(ls));
        }

        let ghost rows = ls.skip(1);
        let mut c2: usize = 0;
        while c2 < nch
            invariant
                ls == lines.deep_view(),
                ls.len() >= 1,
                nlines == lines@.len(),
                rows == ls.skip(1),
                md.deep_view() == spec_split(ls[0], ','),
                nch == md@.len(),
                wf_run_lines(ls),
                0 <= c2 <= nch,
                new_datas@.len() == nch,
                forall|cc: int|
                    0 <= cc < nch ==> {
                        &&& (#[trigger] new_datas@[cc]).0@ == entry_tag(md.deep_view()[cc])
                        &&& new_datas@[cc].1.remap_ref@ == entry_ref(md.deep_view()[cc])
                        &&& new_datas@[cc].1.polling_rate == entry_rate(md.deep_view()[cc])
                    },
                forall|cc: int|
                    0 <= cc < c2 ==> (#[trigger] new_datas@[cc]).1.data@ == spec_channel_samples(
                        rows,
                        cc,
                    ),
                *self == *old(self),
            decreases nch - c2,
        {
            let mut data: Vec<u32> = Vec::new();
            let mut r2: usize = 1;
            proof {
                assert(rows.take(0) =~= Seq::<Seq<char>>::empty());
            }
            while r2 < nlines
                invariant
                    ls == lines.deep_view(),
                    ls.len() >= 1,
                    nlines == lines@.len(),
                    rows == ls.skip(1),
                    md.deep_view() == spec_split(ls[0], ','),
                    nch == md@.len(),
                    wf_run_lines(ls),
                    0 <= c2 < nch,
                    1 <= r2 <= nlines,
                    data@ == spec_channel_samples(rows.take(r2 - 1), c2 as int),
                decreases nlines - r2,
            {
                let cells = split_char(lines[r2].as_str(), ',');
                proof {
                    assert(lines@[r2 as int]@ == ls[r2 as int]);
                    assert(wf_row(ls[r2 as int], nch as int));
                    assert(rows[r2 - 1] == ls[r2 as int]);
                }
                if cells.len() > 6 && cells.len() - 6 > c2 {
                    proof {
                        assert(cells@[6 + c2]@ == cells.deep_view()[6 + c2]);
                        assert(wf_cell(cells.deep_view()[6 + c2]));
                    }
                    let v = truncate_val(cells[6 + c2].as_str());
                    data.push(v);
                }
                proof {
                    assert(rows.take(r2 as int).drop_last() =~= rows.take(r2 - 1));
                    assert(rows.take(r2 as int).last() == rows[r2 - 1]);
                }
                r2 += 1;
            }
            proof {
                assert(rows.take(nlines - 1) =~= rows);
            }
            let gd: Ghost<Seq<(String, RawPotData)>> = Ghost(new_datas@);
            new_datas[c2].1.data = data;
            proof {
                assert forall|cc: int|
                    0 <= cc < nch implies {
                    &&& (#[trigger] new_datas@[cc]).0@ == entry_tag(md.deep_view()[cc])
                    &&& new_datas@[cc].1.remap_ref@ == entry_ref(md.deep_view()[cc])
                    &&& new_datas@[cc].1.polling_rate == entry_rate(md.deep_view()[cc])
                } by {
                    if cc != c2 {
                        assert(new_datas@[cc] == gd@[cc]);
                    }
                }
                assert forall|cc: int|
                    0 <= cc < c2 + 1 implies (#[trigger] new_datas@[cc]).1.data@
                    == spec_channel_samples(rows, cc) by {
                    if cc != c2 {
                        assert(new_datas@[cc] == gd@[cc]);
                    }
                }
            }
            c2 += 1;
        }
        self.raw_pot_datas = new_datas;
        true
    }
}

/// A first hit at `i` after `i` misses makes the lookup return `i`.
proof fn lemma_pot_lookup_at(entries: Seq<(String, RawPotData)>, key: Seq<char>, i: int)
    requires
        0 <= i < entries.len(),
        forall|j: int| 0 <= j < i ==> entries[j].0@ != key,
        entries[i].0@ == key,
    ensures
        spec_pot_lookup(entries, key) == Some(i),
    decreases i,
{
    if i > 0 {
        assert forall|j: int| 0 <= j < i - 1 implies entries.drop_first()[j].0@ != key by {
            assert(entries.drop_first()[j] == entries[j + 1]);
        }
        assert(entries.drop_first()[i - 1] == entries[i]);
        lemma_pot_lookup_at(entries.drop_first(), key, i - 1);
    }
}

/// With no hit at all, the lookup returns nothing.
proof fn lemma_pot_lookup_none(entries: Seq<(String, RawPotData)>, key: Seq<char>, n: int)
    requires
        n == entries.len(),
        forall|j: int| 0 <= j < n ==> entries[j].0@ != key,
    ensures
        spec_pot_lookup(entries, key) is None,
    decreases n,
{
    if n > 0 {
        assert forall|j: int| 0 <= j < n - 1 implies entries.drop_first()[j].0@ != key by {
            assert(entries.drop_first()[j] == entries[j + 1]);
        }
        lemma_pot_lookup_none(entries.drop_first(), key, n - 1);
    }
}

} // verus!
