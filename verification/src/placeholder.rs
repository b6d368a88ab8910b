//! The placeholder grammar: recognizing `{...}` placeholders, extracting the
//! optional type tag, and enumerating the top-level placeholders of a string.

use vstd::prelude::*;

use crate::path::{depth_step, Path};
use crate::util::{alnum, is_alnum};
use vstd::pervasive::unreached;

verus! {

/// Mathematical model of a placeholder: the exact matched text including the
/// braces, and the optional type tag before the first top-level colon.
pub struct PlaceholderV {
    /// The raw placeholder text, braces included.
    pub raw: Seq<char>,
    /// The type tag, when present.
    pub tag: Option<Seq<char>>,
}

/// The first colon of `s` at brace depth zero, scanning from position `i` at
/// depth `lvl`.
pub open spec fn colon_scan(s: Seq<char>, i: int, lvl: int) -> Option<int>
    decreases s.len() - i,
{
    if i < 0 || i >= s.len() {
        None
    } else if s[i] == ':' && lvl == 0 {
        Some(i)
    } else {
        colon_scan(s, i + 1, depth_step(lvl, s[i]))
    }
}

/// A found colon lies between the scan start and the end of the string.
pub proof fn lemma_colon_scan_bound(s: Seq<char>, i: int, lvl: int)
    requires
        colon_scan(s, i, lvl) is Some,
    ensures
        i <= colon_scan(s, i, lvl)->Some_0 < s.len(),
    decreases s.len() - i,
{
    if !(i < 0 || i >= s.len()) {
        if !(s[i] == ':' && lvl == 0) {
            lemma_colon_scan_bound(s, i + 1, depth_step(lvl, s[i]));
        }
    }
}

/// Parses a string as a placeholder: it must begin with `{` and end with `}`;
/// the type tag is present only when the character after `{` is alphanumeric
/// and the interior holds a colon at brace depth zero.
pub open spec fn placeholder_of(s: Seq<char>) -> Option<PlaceholderV> {
    if s.len() >= 2 && s[0] == '{' && s[s.len() - 1] == '}' {
        let interior = s.subrange(1, s.len() - 1);
        let tag = if alnum(s[1]) {
            match colon_scan(interior, 0, 0) {
                Some(j) => Some(interior.subrange(0, j)),
                None => None,
            }
        } else {
            None
        };
        Some(PlaceholderV { raw: s, tag })
    } else {
        None
    }
}

/// The path of a placeholder: the interior after the type tag and its colon,
/// or the whole interior when there is no tag.
pub open spec fn path_of(p: PlaceholderV) -> Seq<char> {
    match p.tag {
        Some(t) => p.raw.subrange(t.len() + 2 as int, p.raw.len() - 1),
        None => p.raw.subrange(1, p.raw.len() - 1),
    }
}

/// The top-level placeholders of `s`, scanning from position `i` at brace
/// depth `lvl`, the current candidate having started at `start`, with `acc`
/// the raw texts already found.
pub open spec fn ph_scan(
    s: Seq<char>,
    i: int,
    lvl: int,
    start: int,
    acc: Seq<Seq<char>>,
) -> Seq<Seq<char>>
    decreases s.len() - i,
{
    if i < 0 || i >= s.len() {
        acc
    } else {
        let c = s[i];
        if c == '{' && lvl == 0 {
            ph_scan(s, i + 1, 1, i, acc)
        } else if c == '}' && lvl == 1 {
            ph_scan(s, i + 1, 0, start, acc.push(s.subrange(start, i + 1)))
        } else {
            ph_scan(s, i + 1, depth_step(lvl, c), start, acc)
        }
    }
}

/// The raw texts of the top-level placeholders of `s`.
pub open spec fn phs(s: Seq<char>) -> Seq<Seq<char>> {
    ph_scan(s, 0, 0, 0, Seq::empty())
}

/// The scan only appends: what is already in the accumulator stays, as a
/// prefix of the result.
pub proof fn lemma_ph_scan_prefix(s: Seq<char>, i: int, lvl: int, start: int, acc: Seq<Seq<char>>)
    ensures
        acc.len() <= ph_scan(s, i, lvl, start, acc).len(),
        forall|j: int| 0 <= j < acc.len() ==> #[trigger] ph_scan(s, i, lvl, start, acc)[j] == acc[j],
    decreases s.len() - i,
{
    if !(i < 0 || i >= s.len()) {
        let c = s[i];
        if c == '{' && lvl == 0 {
            lemma_ph_scan_prefix(s, i + 1, 1, i, acc);
        } else if c == '}' && lvl == 1 {
            lemma_ph_scan_prefix(s, i + 1, 0, start, acc.push(s.subrange(start, i + 1)));
        } else {
            lemma_ph_scan_prefix(s, i + 1, depth_step(lvl, c), start, acc);
        }
    }
}

/// This struct represents a placeholder in a JSON object.
#[derive(Debug, Clone)]
pub struct Placeholder {
    /// The placeholder value.
    pub value: String,
    /// The placeholder type.
    pub type_: Option<String>,
}

impl View for Placeholder {
    type V = PlaceholderV;

    open spec fn view(&self) -> PlaceholderV {
        PlaceholderV {
            raw: self.value@,
            tag: match self.type_ {
                Some(t) => Some(t@),
                None => None,
            },
        }
    }
}

impl Placeholder {
    /// A placeholder agrees with what parsing its own text yields.
    pub open spec fn wf(&self) -> bool {
        placeholder_of(self.value@) == Some(self@)
    }

    /// Create a new placeholder from a string.
    pub fn from_str(value: &str) -> (r: Option<Self>)
        ensures
            placeholder_of(value@) is None ==> r is None,
            placeholder_of(value@) matches Some(pv) ==> r matches Some(p) && p@ == pv && p.wf(),
    {
        let n = value.unicode_len();
        if n >= 2 && value.get_char(0) == '{' && value.get_char(n - 1) == '}' {
            let ghost interior = value@.subrange(1, n as int - 1);
            let tag: Option<String> = if is_alnum(value.get_char(1)) {
                let mut j: usize = 1;
                let mut lvl: i128 = 0;
                let mut found: Option<usize> = None;
                while j < n - 1 && found.is_none()
                    invariant
                        n == value@.len(),
                        n >= 2,
                        1 <= j <= n - 1,
                        -(j as int) <= lvl <= j as int,
                        interior == value@.subrange(1, n as int - 1),
                        found matches Some(f) ==> colon_scan(interior, 0, 0) == Some(
                            f as int - 1,
                        ) && 1 <= f < n - 1,
                        found is None ==> colon_scan(interior, 0, 0) == colon_scan(
                            interior,
                            j as int - 1,
                            lvl as int,
                        ),
                    decreases n - j,
                {
                    let c = value.get_char(j);
                    proof {
                        assert(interior[j as int - 1] == value@[j as int]);
                    }
                    if c == ':' && lvl == 0 {
                        found = Some(j);
                    } else if c == '{' {
                        lvl = lvl + 1;
                    } else if c == '}' {
                        lvl = lvl - 1;
                    }
                    j = j + 1;
                }
                match found {
                    Some(f) => Some(value.substring_char(1, f).to_owned()),
                    None => None,
                }
            } else {
                None
            };
            proof {
                if tag is Some {
                    assert(tag->Some_0@ =~= interior.subrange(
                        0,
                        colon_scan(interior, 0, 0)->Some_0,
                    ));
                }
            }
            Some(Placeholder { value: value.to_owned(), type_: tag })
        } else {
            None
        }
    }

    /// Get the path of the placeholder.
    pub fn path(&self) -> (r: Path<'_>)
        requires
            self.wf(),
        ensures
            r@ == path_of(self@),
    {
        let n = self.value.as_str().unicode_len();
        match &self.type_ {
            Some(t) => {
                let tl = t.as_str().unicode_len();
                proof {
                    let interior = self.value@.subrange(1, n as int - 1);
                    lemma_colon_scan_bound(interior, 0, 0);
                }
                Path::new(self.value.as_str().substring_char(tl + 2, n - 1))
            },
            None => Path::new(self.value.as_str().substring_char(1, n - 1)),
        }
    }

    /// Get all the placeholders in a string.
    /// If value == "{time} {time:3}", then placeholders == ["{time}", "{time:3}"].
    /// If value == "{time:{time:5}}  {time}", then placeholders == ["{time:{time:5}}", "{time}"].
    pub fn placeholders(value: &str) -> (r: Vec<Self>)
        ensures
            r@.len() == phs(value@).len(),
            forall|k: int|
                0 <= k < r@.len() ==> (#[trigger] r@[k]).wf() && r@[k]@.raw == phs(value@)[k],
    {
        let n = value.unicode_len();
        let mut out: Vec<Placeholder> = Vec::new();
        let ghost mut acc: Seq<Seq<char>> = Seq::empty();
        let mut lvl: i128 = 0;
        let mut start: usize = 0;
        let mut i: usize = 0;
        while i < n
            invariant
                n == value@.len(),
                0 <= i <= n,
                -(i as int) <= lvl <= i as int,
                lvl >= 1 ==> start < i && value@[start as int] == '{',
                acc.len() == out@.len(),
                forall|k: int|
                    0 <= k < acc.len() ==> (#[trigger] out@[k]).wf() && out@[k]@.raw == acc[k],
                ph_scan(value@, i as int, lvl as int, start as int, acc) == phs(value@),
            decreases n - i,
        {
            let c = value.get_char(i);
            if c == '{' && lvl == 0 {
                start = i;
                lvl = 1;
            } else if c == '}' && lvl == 1 {
                let raw = value.substring_char(start, i + 1);
                proof {
                    assert(raw@[0] == value@[start as int]);
                    assert(raw@[raw@.len() - 1] == value@[i as int]);
                }
                let p = match Self::from_str(raw) {
                    Some(p) => p,
                    None => unreached(),
                };
                out.push(p);
                proof {
                    acc = acc.push(value@.subrange(start as int, i as int + 1));
                }
                lvl = 0;
            } else if c == '{' {
                lvl = lvl + 1;
            } else if c == '}' {
                lvl = lvl - 1;
            }
            i = i + 1;
        }
        out
    }
}

} // verus!
