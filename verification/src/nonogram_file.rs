//! The structured contents of a nonogram puzzle file, and a builder that
//! collects them one key at a time.
//!
//! Every key may be given at most once, and the `rows`, `columns` and
//! `goal` keys require `width` and `height` to have been given first; the
//! builder reports a violation of either rule as an [`Error`].

use vstd::prelude::*;

use crate::parser;

verus! {

/// The contents of a parsed nonogram file.
pub struct NonogramFile {
    pub width: u64,
    pub height: u64,
    pub rows: Vec<Hint>,
    pub columns: Vec<Hint>,
    pub goal: Option<Cell>,
    pub catalogue: Option<String>,
    pub title: Option<String>,
    pub by: Option<String>,
    pub copyright: Option<String>,
    pub license: Option<String>,
    pub colors: Option<Vec<ColorDefinition>>,
}

/// One cell of a goal grid: empty, or filled (optionally with a color).
pub enum Cell {
    Empty,
    Filled(Option<ColorCode>),
}

/// One run hint: a length, optionally tagged with a color code.
pub struct Hint {
    pub length: u64,
    pub color: Option<ColorCode>,
}

/// A one-letter color code.
pub struct ColorCode(pub char);

/// The binding of a color code to a color.
pub struct ColorDefinition {
    pub code: ColorCode,
    pub color: Color,
}

/// A red/green/blue color.
pub struct Color {
    pub red: u8,
    pub green: u8,
    pub blue: u8,
}

/// Collects the values of a nonogram file one key at a time.
pub struct NonogramFileBuilder {
    pub width: Option<u64>,
    pub height: Option<u64>,
    pub rows: Option<Vec<Hint>>,
    pub columns: Option<Vec<Hint>>,
    pub goal: Option<Vec<Cell>>,
    pub catalogue: Option<String>,
    pub title: Option<String>,
    pub by: Option<String>,
    pub copyright: Option<String>,
    pub license: Option<String>,
    pub colors: Option<Vec<ColorDefinition>>,
}

/// A violation of the builder's rules.
pub enum Error {
    /// The named key was given twice.
    DuplicateValue(String),
    /// The first-named key was given before the second-named key, which it
    /// requires.
    ThisNeededRequiredValue(String, String),
}

impl NonogramFileBuilder {
    /// A builder with no value yet for any key.
    pub fn new() -> (b: NonogramFileBuilder)
        ensures
            b.width is None,
            b.height is None,
            b.rows is None,
            b.columns is None,
            b.goal is None,
            b.catalogue is None,
            b.title is None,
            b.by is None,
            b.copyright is None,
            b.license is None,
            b.colors is None,
    {
        NonogramFileBuilder {
            width: None,
            height: None,
            rows: None,
            columns: None,
            goal: None,
            catalogue: None,
            title: None,
            by: None,
            copyright: None,
            license: None,
            colors: None,
        }
    }

    pub fn width(&mut self, width: u64) -> (r: Result<(), Error>)
        ensures
            old(self).width is None ==> r is Ok && *final(self) == (NonogramFileBuilder {
                width: Some(width),
                ..*old(self)
            }),
            old(self).width is Some ==> (r matches Err(Error::DuplicateValue(k)) && k@
                == "width"@) && *final(self) == *old(self),
    {
        match self.width {
            None => {
                self.width = Some(width);
                Ok(())
            },
            Some(_) => Err(Error::DuplicateValue(String::from_str("width"))),
        }
    }

    pub fn height(&mut self, height: u64) -> (r: Result<(), Error>)
        ensures
            old(self).height is None ==> r is Ok && *final(self) == (NonogramFileBuilder {
                height: Some(height),
                ..*old(self)
            }),
            old(self).height is Some ==> (r matches Err(Error::DuplicateValue(k)) && k@
                == "height"@) && *final(self) == *old(self),
    {
        match self.height {
            None => {
                self.height = Some(height);
                Ok(())
            },
            Some(_) => Err(Error::DuplicateValue(String::from_str("height"))),
        }
    }

    pub fn rows(&mut self, rows: Vec<Hint>) -> (r: Result<(), Error>)
        ensures
            old(self).width is None ==> (r matches Err(Error::ThisNeededRequiredValue(a, b)) && a@
                == "rows"@ && b@ == "width"@) && *final(self) == *old(self),
            old(self).width is Some && old(self).height is None ==> (r matches Err(
                Error::ThisNeededRequiredValue(a, b),
            ) && a@ == "rows"@ && b@ == "height"@) && *final(self) == *old(self),
            old(self).width is Some && old(self).height is Some && old(self).rows is None ==> r
                is Ok && *final(self) == (NonogramFileBuilder { rows: Some(rows), ..*old(self) }),
            old(self).width is Some && old(self).height is Some && old(self).rows is Some ==> (r
                matches Err(Error::DuplicateValue(k)) && k@ == "rows"@) && *final(self) == *old(
                self,
            ),
    {
        if self.width.is_none() {
            return Err(
                Error::ThisNeededRequiredValue(String::from_str("rows"), String::from_str("width")),
            );
        }
        if self.height.is_none() {
            return Err(
                Error::ThisNeededRequiredValue(
                    String::from_str("rows"),
                    String::from_str("height"),
                ),
            );
        }
        match self.rows {
            None => {
                self.rows = Some(rows);
                Ok(())
            },
            Some(_) => Err(Error::DuplicateValue(String::from_str("rows"))),
        }
    }

    pub fn columns(&mut self, columns: Vec<Hint>) -> (r: Result<(), Error>)
        ensures
            old(self).width is None ==> (r matches Err(Error::ThisNeededRequiredValue(a, b)) && a@
                == "columns"@ && b@ == "width"@) && *final(self) == *old(self),
            old(self).width is Some && old(self).height is None ==> (r matches Err(
                Error::ThisNeededRequiredValue(a, b),
            ) && a@ == "columns"@ && b@ == "height"@) && *final(self) == *old(self),
            old(self).width is Some && old(self).height is Some && old(self).columns is None ==> r
                is Ok && *final(self) == (NonogramFileBuilder {
                columns: Some(columns),
                ..*old(self)
            }),
            old(self).width is Some && old(self).height is Some && old(self).columns is Some ==> (r
                matches Err(Error::DuplicateValue(k)) && k@ == "columns"@) && *final(self) == *old(
                self,
            ),
    {
        if self.width.is_none() {
            return Err(
                Error::ThisNeededRequiredValue(
                    String::from_str("columns"),
                    String::from_str("width"),
                ),
            );
        }
        if self.height.is_none() {
            return Err(
                Error::ThisNeededRequiredValue(
                    String::from_str("columns"),
                    String::from_str("height"),
                ),
            );
        }
        match self.columns {
            None => {
                self.columns = Some(columns);
                Ok(())
            },
            Some(_) => Err(Error::DuplicateValue(String::from_str("columns"))),
        }
    }

    pub fn goal(&mut self, goal: Vec<Cell>) -> (r: Result<(), Error>)
        ensures
            old(self).width is None ==> (r matches Err(Error::ThisNeededRequiredValue(a, b)) && a@
                == "goal"@ && b@ == "width"@) && *final(self) == *old(self),
            old(self).width is Some && old(self).height is None ==> (r matches Err(
                Error::ThisNeededRequiredValue(a, b),
            ) && a@ == "goal"@ && b@ == "height"@) && *final(self) == *old(self),
            old(self).width is Some && old(self).height is Some && old(self).goal is None ==> r
                is Ok && *final(self) == (NonogramFileBuilder { goal: Some(goal), ..*old(self) }),
            old(self).width is Some && old(self).height is Some && old(self).goal is Some ==> (r
                matches Err(Error::DuplicateValue(k)) && k@ == "goal"@) && *final(self) == *old(
                self,
            ),
    {
        if self.width.is_none() {
            return Err(
                Error::ThisNeededRequiredValue(String::from_str("goal"), String::from_str("width")),
            );
        }
        if self.height.is_none() {
            return Err(
                Error::ThisNeededRequiredValue(
                    String::from_str("goal"),
                    String::from_str("height"),
                ),
            );
        }
        match self.goal {
            None => {
                self.goal = Some(goal);
                Ok(())
            },
            Some(_) => Err(Error::DuplicateValue(String::from_str("goal"))),
        }
    }

    pub fn catalogue(&mut self, catalogue: &str) -> (r: Result<(), Error>)
        ensures
            old(self).catalogue is None ==> r is Ok && (final(self).catalogue matches Some(v) && v@
                == catalogue@) && *final(self) == (NonogramFileBuilder {
                catalogue: final(self).catalogue,
                ..*old(self)
            }),
            old(self).catalogue is Some ==> (r matches Err(Error::DuplicateValue(k)) && k@
                == "catalogue"@) && *final(self) == *old(self),
    {
        match self.catalogue {
            None => {
                self.catalogue = Some(String::from_str(catalogue));
                Ok(())
            },
            Some(_) => Err(Error::DuplicateValue(String::from_str("catalogue"))),
        }
    }

    pub fn title(&mut self, title: &str) -> (r: Result<(), Error>)
        ensures
            old(self).title is None ==> r is Ok && (final(self).title matches Some(v) && v@
                == title@) && *final(self) == (NonogramFileBuilder {
                title: final(self).title,
                ..*old(self)
            }),
            old(self).title is Some ==> (r matches Err(Error::DuplicateValue(k)) && k@ == "title"@)
                && *final(self) == *old(self),
    {
        match self.title {
            None => {
                self.title = Some(String::from_str(title));
                Ok(())
            },
            Some(_) => Err(Error::DuplicateValue(String::from_str("title"))),
        }
    }

    pub fn by(&mut self, by: &str) -> (r: Result<(), Error>)
        ensures
            old(self).by is None ==> r is Ok && (final(self).by matches Some(v) && v@
                == by@) && *final(self) == (NonogramFileBuilder {
                by: final(self).by,
                ..*old(self)
            }),
            old(self).by is Some ==> (r matches Err(Error::DuplicateValue(k)) && k@ == "by"@)
                && *final(self) == *old(self),
    {
        match self.by {
            None => {
                self.by = Some(String::from_str(by));
                Ok(())
            },
            Some(_) => Err(Error::DuplicateValue(String::from_str("by"))),
        }
    }

    pub fn copyright(&mut self, copyright: &str) -> (r: Result<(), Error>)
        ensures
            old(self).copyright is None ==> r is Ok && (final(self).copyright matches Some(v) && v@
                == copyright@) && *final(self) == (NonogramFileBuilder {
                copyright: final(self).copyright,
                ..*old(self)
            }),
            old(self).copyright is Some ==> (r matches Err(Error::DuplicateValue(k)) && k@
                == "copyright"@) && *final(self) == *old(self),
    {
        match self.copyright {
            None => {
                self.copyright = Some(String::from_str(copyright));
                Ok(())
            },
            Some(_) => Err(Error::DuplicateValue(String::from_str("copyright"))),
        }
    }

    pub fn license(&mut self, license: &str) -> (r: Result<(), Error>)
        ensures
            old(self).license is None ==> r is Ok && (final(self).license matches Some(v) && v@
                == license@) && *final(self) == (NonogramFileBuilder {
                license: final(self).license,
                ..*old(self)
            }),
            old(self).license is Some ==> (r matches Err(Error::DuplicateValue(k)) && k@
                == "license"@) && *final(self) == *old(self),
    {
        match self.license {
            None => {
                self.license = Some(String::from_str(license));
                Ok(())
            },
            Some(_) => Err(Error::DuplicateValue(String::from_str("license"))),
        }
    }
}

/// Splits the input at its first space: the part before it, and the part
/// after it with leading whitespace removed. An input without a space is
/// returned whole, with an empty rest.
pub fn first_word_and_rest(input: &str) -> (r: (&str, &str))
    ensures
        ({
            let f = parser::spec_find(input@, ' ');
            r.0@ == input@.take(f) && r.1@ == trim_white_space_start(input@.skip(f))
        }),
{
    let n = input.unicode_len();
    let f = parser::find_stop(input, 0, ' ');
    proof {
        assert(input@.skip(0) =~= input@);
    }
    let first = input.substring_char(0, f);
    let p = scan_white_space(input, f);
    let rest = input.substring_char(p, n);
    proof {
        assert(first@ =~= input@.take(f as int));
        assert(rest@ =~= input@.skip(p as int));
        assert(input@.skip(f as int).skip(p - f) =~= input@.skip(p as int));
    }
    (first, rest)
}

/// A whitespace character, as `char::is_whitespace` classifies them (the
/// Unicode `White_Space` property): the ASCII whitespace characters, next
/// line, no-break space, ogham space mark, the en-quad to hair-space
/// range, the line and paragraph separators, narrow no-break space,
/// medium mathematical space, and the ideographic space.
pub open spec fn is_white_space_char(c: char) -> bool {
    ||| (9 <= c as u32 <= 13)
    ||| c as u32 == 32
    ||| c as u32 == 0x85
    ||| c as u32 == 0xa0
    ||| c as u32 == 0x1680
    ||| (0x2000 <= c as u32 <= 0x200a)
    ||| c as u32 == 0x2028
    ||| c as u32 == 0x2029
    ||| c as u32 == 0x202f
    ||| c as u32 == 0x205f
    ||| c as u32 == 0x3000
}

/// Reports whether `c` is a whitespace character.
fn white_space(c: char) -> (r: bool)
    ensures
        r == is_white_space_char(c),
{
    let u = c as u32;
    (9 <= u && u <= 13) || u == 32 || u == 0x85 || u == 0xa0 || u == 0x1680 || (0x2000 <= u && u
        <= 0x200a) || u == 0x2028 || u == 0x2029 || u == 0x202f || u == 0x205f || u == 0x3000
}

/// `s` without its leading whitespace.
pub open spec fn trim_white_space_start(s: Seq<char>) -> Seq<char>
    decreases s.len(),
{
    if s.len() > 0 && is_white_space_char(s[0]) {
        trim_white_space_start(s.drop_first())
    } else {
        s
    }
}

proof fn lemma_trim_white_space_start_is(s: Seq<char>, i: int)
    requires
        0 <= i <= s.len(),
        forall|k: int| 0 <= k < i ==> is_white_space_char(#[trigger] s[k]),
        i < s.len() ==> !is_white_space_char(s[i]),
    ensures
        trim_white_space_start(s) == s.skip(i),
    decreases s.len(),
{
    if s.len() > 0 && is_white_space_char(s[0]) {
        let rest = s.drop_first();
        assert forall|k: int| 0 <= k < i - 1 implies is_white_space_char(#[trigger] rest[k]) by {
            assert(rest[k] == s[k + 1]);
        }
        assert(i - 1 < rest.len() ==> !is_white_space_char(rest[i - 1]));
        lemma_trim_white_space_start_is(rest, i - 1);
        assert(rest.skip(i - 1) =~= s.skip(i));
    } else {
        assert(s.skip(0) =~= s);
    }
}

/// The index of the first character at or after `from` that is not
/// whitespace.
fn scan_white_space(s: &str, from: usize) -> (i: usize)
    requires
        from <= s@.len(),
    ensures
        from <= i <= s@.len(),
        trim_white_space_start(s@.skip(from as int)) == s@.skip(i as int),
{
    let n = s.unicode_len();
    let mut i: usize = from;
    while i < n && white_space(s.get_char(i))
        invariant
            from <= i <= n,
            n == s@.len(),
            forall|k: int| from <= k < i ==> is_white_space_char(#[trigger] s@[k]),
        decreases n - i,
    {
        i = i + 1;
    }
    proof {
        let sub = s@.skip(from as int);
        assert forall|k: int| 0 <= k < i - from implies is_white_space_char(#[trigger] sub[k]) by {
            assert(sub[k] == s@[from + k]);
        }
        assert(i - from < sub.len() ==> !is_white_space_char(sub[i - from]));
        lemma_trim_white_space_start_is(sub, i - from);
        assert(sub.skip(i - from) =~= s@.skip(i as int));
    }
    i
}

} // verus!
