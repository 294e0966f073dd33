//! Column layout for printing notes as aligned lines.
//!
//! `LineFormat` looks at a batch of notes and picks a width for each column.
//! The caller that knows the console width can then shrink the title column
//! with `fit_to_width`; everything here is pure arithmetic over the notes.

use vstd::prelude::*;
use vstd::string::StringExecFns;
use crate::doc::{dec_digits, status_tok, usize_string};
use crate::errors::Error;
use crate::note::{views_of, Item, ItemV, Status};
use crate::text::{chars_string, str_chars};

verus! {

/// The widths of the printed columns and the separator between them.
#[derive(Clone, Copy)]
pub struct LineFormat {
    pub colsep: usize,
    pub id_width: usize,
    pub title_width: usize,
    pub status_width: usize,
    pub touched_width: usize,
}

/// How many decimal digits this number prints as.
pub open spec fn digits(n: int) -> int
    recommends
        n >= 0,
    decreases n,
{
    if n < 10 {
        1
    } else {
        1 + digits(n / 10)
    }
}

/// Ten to the `k`.
pub open spec fn pow10(k: nat) -> int
    decreases k,
{
    if k == 0 {
        1
    } else {
        10 * pow10((k - 1) as nat)
    }
}

proof fn lemma_pow10_ge(k: nat)
    ensures
        pow10(k) > k,
        k >= 1 ==> pow10(k) >= 2 * k,
    decreases k,
{
    if k > 0 {
        lemma_pow10_ge((k - 1) as nat);
    }
}

/// The largest digit count among the ids, or zero with no notes.
pub open spec fn max_id_digits(notes: Seq<ItemV>) -> int
    decreases notes.len(),
{
    if notes.len() == 0 {
        0
    } else {
        let m = max_id_digits(notes.drop_last());
        let d = digits(notes.last().id as int);
        if d > m {
            d
        } else {
            m
        }
    }
}

/// The sort key the title column is sized by: the title length, plus four
/// for the ` (+)` marker when the note has a body.
pub open spec fn title_key(n: ItemV) -> int {
    n.title.len() + if n.body.len() > 0 {
        4int
    } else {
        0int
    }
}

/// The note whose key wins; on a tie the later note wins, as the original
/// iterator maximum does.
pub open spec fn best_title(notes: Seq<ItemV>) -> ItemV
    recommends
        notes.len() > 0,
    decreases notes.len(),
{
    if notes.len() <= 1 {
        notes[0]
    } else {
        let b = best_title(notes.drop_last());
        if title_key(notes.last()) >= title_key(b) {
            notes.last()
        } else {
            b
        }
    }
}

/// The title column width before the five-character floor: the winning
/// note's title length, plus four for its body marker unless this is a
/// search listing (which prints bodies on their own lines).
pub open spec fn title_width_base(notes: Seq<ItemV>, search: bool) -> int {
    if notes.len() == 0 {
        0
    } else {
        let b = best_title(notes);
        if b.body.len() == 0 || search {
            b.title.len() as int
        } else {
            b.title.len() as int + 4
        }
    }
}

/// How wide a status prints: `Started` is seven characters, `Urgent` six,
/// blank nothing.
pub open spec fn status_len(st: Status) -> int {
    match st {
        Status::Blank => 0,
        Status::Started => 7,
        Status::Urgent => 6,
    }
}

/// The widest status among the notes, or zero.
pub open spec fn max_status_len(notes: Seq<ItemV>) -> int
    decreases notes.len(),
{
    if notes.len() == 0 {
        0
    } else {
        let m = max_status_len(notes.drop_last());
        let d = status_len(notes.last().status);
        if d > m {
            d
        } else {
            m
        }
    }
}

/// The id column width: the widest id, with a floor of two in the expanded
/// layout so the `id` header fits.
pub open spec fn id_width_spec(notes: Seq<ItemV>, condensed: bool) -> int {
    let b = max_id_digits(notes);
    if b < 2 && !condensed {
        2
    } else {
        b
    }
}

/// The title column width: the winning key, with a floor of five in the
/// expanded layout so the `title` header fits.
pub open spec fn title_width_spec(notes: Seq<ItemV>, condensed: bool, search: bool) -> int {
    let b = title_width_base(notes, search);
    if b < 5 && !condensed {
        5
    } else {
        b
    }
}

/// The status column width: nothing when every status is blank, one
/// character condensed, else the widest status.
pub open spec fn status_width_spec(notes: Seq<ItemV>, condensed: bool) -> int {
    let m = max_status_len(notes);
    if m > 0 {
        if condensed {
            1
        } else {
            m
        }
    } else {
        0
    }
}

/// The whole line's width: every column plus the separators, of which there
/// are two, or three when a status column prints.
pub open spec fn line_width_spec(f: LineFormat) -> int {
    f.id_width + f.title_width + f.status_width + f.touched_width + (if f.status_width == 0 {
        2int
    } else {
        3int
    }) * f.colsep
}

/// How many decimal digits this number prints as.
fn num_digits(n: usize) -> (r: usize)
    ensures
        r == digits(n as int),
{
    if n < 10 {
        return 1;
    }
    let mut m: usize = n;
    let mut d: usize = 1;
    while m >= 10
        invariant
            m >= 1,
            d >= 1,
            digits(n as int) == d - 1 + digits(m as int),
            pow10((d - 1) as nat) <= n,
            m * pow10((d - 1) as nat) <= n,
        decreases m,
    {
        proof {
            lemma_pow10_ge((d - 1) as nat);
            let p = pow10((d - 1) as nat);
            assert(10 * (m / 10) <= m);
            assert(10 * p <= m * p) by (nonlinear_arith)
                requires
                    m >= 10,
                    p >= 1,
            ;
            assert((m / 10) * (10 * p) <= m * p) by (nonlinear_arith)
                requires
                    10 * (m / 10) <= m,
                    p >= 1,
            ;
            assert(pow10(d as nat) == 10 * p);
        }
        m = m / 10;
        d = d + 1;
    }
    d
}

impl LineFormat {
    /// Pick column widths for these notes.
    ///
    /// The id column fits the widest id, the title column the longest title
    /// (counting the body marker except in search listings, where bodies
    /// print on their own lines), the status column the widest status if
    /// any, and the timestamp column its fixed short or long rendering.
    /// The expanded layout keeps floors of two and five so the `id` and
    /// `title` headers fit.  Always succeeds; shrinking to a console width
    /// is the caller's separate step, `fit_to_width`.
    pub fn new(items: &[Item], condensed: bool, search: bool) -> (r: Result<LineFormat, Error>)
        requires
            forall|i: int|
                0 <= i < items@.len() ==> (#[trigger] items@[i])@.title.len() + 4 <= usize::MAX,
        ensures
            r is Ok,
            r->Ok_0.colsep == (if condensed {
                1int
            } else {
                2int
            }),
            r->Ok_0.id_width == id_width_spec(views_of(items@), condensed),
            r->Ok_0.title_width == title_width_spec(views_of(items@), condensed, search),
            r->Ok_0.status_width == status_width_spec(views_of(items@), condensed),
            r->Ok_0.touched_width == (if condensed {
                10int
            } else {
                19int
            }),
    {
        let ghost notesv = views_of(items@);
        let colsep: usize = if condensed {
            1
        } else {
            2
        };

        // widest id
        let mut idw: usize = 0;
        let mut i: usize = 0;
        proof {
            assert(notesv.take(0int) =~= Seq::<ItemV>::empty());
        }
        while i < items.len()
            invariant
                i <= notesv.len(),
                notesv == views_of(items@),
                notesv.len() == items@.len(),
                forall|k: int| 0 <= k < notesv.len() ==> notesv[k] == items@[k]@,
                idw == max_id_digits(notesv.take(i as int)),
            decreases notesv.len() - i,
        {
            proof {
                assert(notesv.take(i + 1int).drop_last() =~= notesv.take(i as int));
                assert(notesv.take(i + 1int).last() == notesv[i as int]);
            }
            let d = num_digits(items[i].id);
            if d > idw {
                idw = d;
            }
            i = i + 1;
        }
        proof {
            assert(notesv.take(notesv.len() as int) =~= notesv);
        }
        let id_width: usize = if idw < 2 && !condensed {
            2
        } else {
            idw
        };

        // longest title, counting the body marker
        let mut t_len: usize = 0;
        let mut t_key: usize = 0;
        let mut t_bodyless: bool = true;
        let mut j: usize = 0;
        while j < items.len()
            invariant
                j <= notesv.len(),
                notesv == views_of(items@),
                notesv.len() == items@.len(),
                forall|k: int| 0 <= k < notesv.len() ==> notesv[k] == items@[k]@,
                forall|k: int|
                    0 <= k < notesv.len() ==> (#[trigger] notesv[k]).title.len() + 4
                        <= usize::MAX,
                j > 0 ==> ({
                    let b = best_title(notesv.take(j as int));
                    t_len == b.title.len() && t_key == title_key(b) && t_bodyless == (b.body.len()
                        == 0)
                }),
            decreases notesv.len() - j,
        {
            proof {
                assert(notesv.take(j + 1int).drop_last() =~= notesv.take(j as int));
                assert(notesv.take(j + 1int).last() == notesv[j as int]);
            }
            let tl = items[j].title.as_str().unicode_len();
            let bodyless = items[j].body.as_str().unicode_len() == 0;
            let key: usize = if bodyless {
                tl
            } else {
                tl + 4
            };
            if j == 0 || key >= t_key {
                t_len = tl;
                t_key = key;
                t_bodyless = bodyless;
            }
            j = j + 1;
        }
        proof {
            assert(notesv.take(notesv.len() as int) =~= notesv);
        }
        let base: usize = if items.len() == 0 {
            0
        } else if t_bodyless || search {
            t_len
        } else {
            t_len + 4
        };
        let title_width: usize = if base < 5 && !condensed {
            5
        } else {
            base
        };

        // widest status
        let mut stw: usize = 0;
        let mut k: usize = 0;
        while k < items.len()
            invariant
                k <= notesv.len(),
                notesv == views_of(items@),
                notesv.len() == items@.len(),
                forall|q: int| 0 <= q < notesv.len() ==> notesv[q] == items@[q]@,
                stw == max_status_len(notesv.take(k as int)),
                stw <= 7,
            decreases notesv.len() - k,
        {
            proof {
                assert(notesv.take(k + 1int).drop_last() =~= notesv.take(k as int));
                assert(notesv.take(k + 1int).last() == notesv[k as int]);
            }
            let d: usize = match items[k].status {
                Status::Blank => 0,
                Status::Started => 7,
                Status::Urgent => 6,
            };
            if d > stw {
                stw = d;
            }
            k = k + 1;
        }
        proof {
            assert(notesv.take(notesv.len() as int) =~= notesv);
        }
        let status_width: usize = if stw > 0 {
            if condensed {
                1
            } else {
                stw
            }
        } else {
            0
        };

        let touched_width: usize = if condensed {
            10
        } else {
            19
        };

        Ok(LineFormat { colsep, id_width, title_width, status_width, touched_width })
    }

    /// The width of a whole printed line under this format.
    pub fn line_width(&self) -> (r: usize)
        requires
            line_width_spec(*self) <= usize::MAX,
        ensures
            r == line_width_spec(*self),
    {
        let columns: usize = if self.status_width == 0 {
            2 * self.colsep
        } else {
            3 * self.colsep
        };
        self.id_width + self.title_width + self.status_width + self.touched_width + columns
    }

    /// Shrink the title column so the line fits a console of this width.
    ///
    /// Nothing changes when the console width is unknown (zero), the line
    /// already fits, or the title column cannot absorb the excess.
    pub fn fit_to_width(&mut self, console_width: usize)
        requires
            line_width_spec(*old(self)) <= usize::MAX,
        ensures
            ({
                let lw = line_width_spec(*old(self));
                if console_width > 0 && lw > console_width && old(self).title_width > lw
                    - console_width {
                    final(self).title_width == old(self).title_width - (lw - console_width)
                        && final(self).colsep == old(self).colsep && final(self).id_width == old(self).id_width && final(self).status_width == old(self).status_width && final(self).touched_width == old(self).touched_width
                } else {
                    *final(self) == *old(self)
                }
            }),
    {
        let lw = self.line_width();
        if console_width > 0 && lw > console_width {
            let excess = lw - console_width;
            if self.title_width > excess {
                self.title_width = self.title_width - excess;
            }
        }
    }
}

/// What `format_field` returns: the value truncated to `width - 3`
/// characters followed by an ellipsis when it overflows a truncating field
/// wider than three, else the value cut or space-padded to exactly `width`
/// characters.
pub open spec fn format_field_spec(v: Seq<char>, width: int, truncate: bool) -> Seq<char> {
    if v.len() > width && width > 3 && truncate {
        v.take(width - 3) + seq!['.', '.', '.']
    } else if v.len() >= width {
        v.take(width)
    } else {
        v + Seq::new((width - v.len()) as nat, |i: int| ' ')
    }
}

/// Pad or cut a value to a column of `width` characters, marking a
/// truncating cut with `...`.
pub fn format_field(value: &str, width: usize, truncate: bool) -> (r: String)
    ensures
        r@ == format_field_spec(value@, width as int, truncate),
{
    let cs: Vec<char> = str_chars(value);
    let mut out: Vec<char> = Vec::new();
    if cs.len() > width && width > 3 && truncate {
        let stop = width - 3;
        let mut i: usize = 0;
        while i < stop
            invariant
                i <= stop,
                stop <= cs@.len(),
                out@ == cs@.take(i as int),
            decreases stop - i,
        {
            out.push(cs[i]);
            proof {
                assert(out@ =~= cs@.take(i + 1int));
            }
            i = i + 1;
        }
        out.push('.');
        out.push('.');
        out.push('.');
        proof {
            assert(out@ =~= cs@.take(width - 3) + seq!['.', '.', '.']);
        }
    } else {
        let stop = if cs.len() >= width {
            width
        } else {
            cs.len()
        };
        let mut i: usize = 0;
        while i < stop
            invariant
                i <= stop,
                stop <= cs@.len(),
                out@ == cs@.take(i as int),
            decreases stop - i,
        {
            out.push(cs[i]);
            proof {
                assert(out@ =~= cs@.take(i + 1int));
            }
            i = i + 1;
        }
        while i < width
            invariant
                stop <= i,
                i <= width,
                stop <= cs@.len(),
                out@ == cs@.take(stop as int) + Seq::new((i - stop) as nat, |q: int| ' '),
            decreases width - i,
        {
            out.push(' ');
            proof {
                assert(out@ =~= cs@.take(stop as int) + Seq::new(
                    (i + 1 - stop) as nat,
                    |q: int| ' ',
                ));
            }
            i = i + 1;
        }
        proof {
            if cs@.len() >= width {
                assert(out@ =~= cs@.take(width as int));
            } else {
                assert(cs@.take(stop as int) =~= cs@);
            }
        }
    }
    chars_string(&out)
}


/// A run of spaces.
pub open spec fn spaces(n: int) -> Seq<char> {
    Seq::new(n as nat, |i: int| ' ')
}

/// A column separator's worth of spaces.
fn sep_string(n: usize) -> (r: String)
    ensures
        r@ == spaces(n as int),
{
    let mut out: Vec<char> = Vec::new();
    let mut i: usize = 0;
    while i < n
        invariant
            i <= n,
            out@ == spaces(i as int),
        decreases n - i,
    {
        out.push(' ');
        proof {
            assert(out@ =~= spaces(i + 1int));
        }
        i = i + 1;
    }
    chars_string(&out)
}

/// One note as a printed line under a format: the id, the title — marked
/// `(+)` when the note has a body that the listing will not show — the
/// status when the format gives it a column, and the already-localized
/// timestamp, each cut or padded to its column.
pub open spec fn line_of(n: ItemV, fmt: LineFormat, search_body: bool, touched: Seq<char>) -> Seq<
    char,
> {
    let sep = spaces(fmt.colsep as int);
    let idf = format_field_spec(dec_digits(n.id as int), fmt.id_width as int, false);
    let titlef = if n.body.len() > 0 && !search_body {
        format_field_spec(n.title, fmt.title_width - 4, true) + format_field_spec(
            " (+)"@,
            4,
            false,
        )
    } else {
        format_field_spec(n.title, fmt.title_width as int, true)
    };
    let statusf = if fmt.status_width != 0 {
        format_field_spec(status_tok(n.status), fmt.status_width as int, false) + sep
    } else {
        Seq::<char>::empty()
    };
    idf + sep + titlef + sep + statusf + format_field_spec(touched, fmt.touched_width as int, false)
}

impl Item {
    /// Render this note as one line under the format.  Localizing the
    /// timestamp needs the machine's time zone, so the caller hands the
    /// localized rendering in `touched`; under `search_body` the body
    /// prints on its own lines, which are also the caller's.
    pub fn write(&self, fmt: &LineFormat, search_body: bool, touched: &str) -> (r: String)
        requires
            self@.body.len() > 0 && !search_body ==> fmt.title_width >= 4,
        ensures
            r@ == line_of(self@, *fmt, search_body, touched@),
    {
        let sep = sep_string(fmt.colsep);
        let mut out = String::new();
        let id_str = usize_string(self.id);
        out.append(format_field(id_str.as_str(), fmt.id_width, false).as_str());
        out.append(sep.as_str());
        if self.body.as_str().unicode_len() > 0 && !search_body {
            out.append(format_field(self.title.as_str(), fmt.title_width - 4, true).as_str());
            out.append(format_field(" (+)", 4, false).as_str());
        } else {
            out.append(format_field(self.title.as_str(), fmt.title_width, true).as_str());
        }
        out.append(sep.as_str());
        if fmt.status_width != 0 {
            let status_str: &str = match self.status {
                Status::Blank => "",
                Status::Started => "Started",
                Status::Urgent => "Urgent",
            };
            proof {
                reveal_strlit("");
                assert(status_str@ =~= status_tok(self@.status));
            }
            out.append(format_field(status_str, fmt.status_width, false).as_str());
            out.append(sep.as_str());
        }
        out.append(format_field(touched, fmt.touched_width, false).as_str());
        proof {
            assert(out@ =~= line_of(self@, *fmt, search_body, touched@));
        }
        out
    }
}

} // verus!
