//! The INI-style document layer of the codec: a document is a sequence of
//! named sections, each holding key/value properties in order. `tokenize`
//! is the specification of the grammar; `parse_ini` is the verified reader.
//!
//! Grammar, line by line (lines are separated by `'\n'`): surrounding
//! whitespace is ignored; empty lines and lines starting with `';'` or `'#'`
//! are skipped; `[name]` opens a section; `key = value` adds a property to
//! the open section (one before any section header is ignored); anything
//! else is a malformed document.
use vstd::prelude::*;
use crate::errors::IniError;
use crate::text::find_char;
use crate::text::lemma_find_char_at;
use crate::text::lemma_find_char_none;
use crate::text::split_char;
use crate::text::split_chars;
use crate::text::string_from_chars;
use crate::text::sub_chars;
use crate::text::trim;
use crate::text::trim_chars;
use crate::text::chars_of;
use crate::text::views_of;

verus! {

/// Specification-level image of one section.
pub struct SectionView {
    pub name: Seq<char>,
    pub props: Seq<(Seq<char>, Seq<char>)>,
}

/// What one line of the document means.
pub enum LineTok {
    Blank,
    Header(Seq<char>),
    Prop(Seq<char>, Seq<char>),
    Bad,
}

/// The meaning of a single line.
pub open spec fn classify_line(l: Seq<char>) -> LineTok {
    let t = trim(l);
    if t.len() == 0 {
        LineTok::Blank
    } else if t[0] == ';' || t[0] == '#' {
        LineTok::Blank
    } else if t[0] == '[' {
        if t.len() >= 2 && t.last() == ']' {
            LineTok::Header(trim(t.subrange(1, t.len() - 1)))
        } else {
            LineTok::Bad
        }
    } else {
        let i = find_char(t, '=');
        if i < 0 {
            LineTok::Bad
        } else {
            LineTok::Prop(trim(t.subrange(0, i)), trim(t.subrange(i + 1, t.len() as int)))
        }
    }
}

/// The sections denoted by the remaining lines, given the section currently
/// being filled; `None` when some line is malformed.
pub open spec fn tokenize_rest(lines: Seq<Seq<char>>, cur: Option<SectionView>) -> Option<
    Seq<SectionView>,
>
    decreases lines.len(),
{
    if lines.len() == 0 {
        Option::Some(
            match cur {
                Option::None => Seq::empty(),
                Option::Some(s) => seq![s],
            },
        )
    } else {
        match classify_line(lines[0]) {
            LineTok::Bad => Option::None,
            LineTok::Blank => tokenize_rest(lines.drop_first(), cur),
            LineTok::Header(n) => {
                let rest = tokenize_rest(
                    lines.drop_first(),
                    Option::Some(SectionView { name: n, props: Seq::empty() }),
                );
                match rest {
                    Option::None => Option::None,
                    Option::Some(r) => match cur {
                        Option::None => Option::Some(r),
                        Option::Some(s) => Option::Some(seq![s] + r),
                    },
                }
            },
            LineTok::Prop(k, v) => match cur {
                Option::None => tokenize_rest(lines.drop_first(), Option::None),
                Option::Some(s) => tokenize_rest(
                    lines.drop_first(),
                    Option::Some(SectionView { name: s.name, props: s.props.push((k, v)) }),
                ),
            },
        }
    }
}

/// The sections of a whole document, or `None` when it is malformed.
pub open spec fn tokenize(text: Seq<char>) -> Option<Seq<SectionView>> {
    tokenize_rest(split_char(text, '\n'), Option::None)
}

/// One `key = value` property of a section.
pub struct IniProp {
    pub key: String,
    pub value: String,
}

impl View for IniProp {
    type V = (Seq<char>, Seq<char>);

    open spec fn view(&self) -> (Seq<char>, Seq<char>) {
        (self.key@, self.value@)
    }
}

/// One named section with its properties in document order.
pub struct IniSection {
    pub name: String,
    pub props: Vec<IniProp>,
}

impl View for IniSection {
    type V = SectionView;

    open spec fn view(&self) -> SectionView {
        SectionView { name: self.name@, props: self.props@.map_values(|p: IniProp| p@) }
    }
}

pub open spec fn section_views(secs: Seq<IniSection>) -> Seq<SectionView> {
    secs.map_values(|s: IniSection| s@)
}

enum LineKind {
    Blank,
    Header(Vec<char>),
    Prop(Vec<char>, Vec<char>),
    Bad,
}

fn find_eq(t: &Vec<char>) -> (r: Option<usize>)
    ensures
        match r {
            Option::Some(i) => i < t@.len() && find_char(t@, '=') == i,
            Option::None => find_char(t@, '=') == -1,
        },
{
    let mut i: usize = 0;
    while i < t.len()
        invariant
            i <= t@.len(),
            forall|k: int| 0 <= k < i ==> t@[k] != '=',
        decreases t.len() - i,
    {
        if t[i] == '=' {
            proof {
                lemma_find_char_at(t@, '=', i as int);
            }
            return Option::Some(i);
        }
        i = i + 1;
    }
    proof {
        lemma_find_char_none(t@, '=');
    }
    Option::None
}

fn classify_exec(line: &Vec<char>) -> (r: LineKind)
    ensures
        match r {
            LineKind::Blank => classify_line(line@) == LineTok::Blank,
            LineKind::Bad => classify_line(line@) == LineTok::Bad,
            LineKind::Header(n) => classify_line(line@) == LineTok::Header(n@),
            LineKind::Prop(k, v) => classify_line(line@) == LineTok::Prop(k@, v@),
        },
{
    let t = trim_chars(line);
    if t.len() == 0 {
        return LineKind::Blank;
    }
    let c0 = t[0];
    if c0 == ';' || c0 == '#' {
        return LineKind::Blank;
    }
    if c0 == '[' {
        if t.len() >= 2 && t[t.len() - 1] == ']' {
            let inner = sub_chars(&t, 1, t.len() - 1);
            let name = trim_chars(&inner);
            return LineKind::Header(name);
        }
        return LineKind::Bad;
    }
    match find_eq(&t) {
        Option::None => LineKind::Bad,
        Option::Some(i) => {
            let kpart = sub_chars(&t, 0, i);
            let key = trim_chars(&kpart);
            let vpart = sub_chars(&t, i + 1, t.len());
            let value = trim_chars(&vpart);
            LineKind::Prop(key, value)
        },
    }
}

pub open spec fn opt_section_view(c: Option<IniSection>) -> Option<SectionView> {
    match c {
        Option::None => Option::None,
        Option::Some(s) => Option::Some(s@),
    }
}

/// Read a whole document into its sections; fails exactly on text that the
/// grammar calls malformed.
pub fn parse_ini(text: &str) -> (r: Result<Vec<IniSection>, IniError>)
    ensures
        match r {
            Result::Ok(secs) => tokenize(text@) == Option::Some(section_views(secs@)),
            Result::Err(e) => tokenize(text@) is None && e == IniError::Malformed,
        },
{
    let chars = chars_of(text);
    let lines = split_chars(&chars, '\n');
    let ghost all_lines = views_of(lines@);
    let mut secs: Vec<IniSection> = Vec::new();
    let mut cur: Option<IniSection> = Option::None;
    let mut i: usize = 0;
    proof {
        assert(all_lines.skip(0) =~= all_lines);
        let t0 = tokenize_rest(all_lines, Option::None);
        if t0 is Some {
            assert(section_views(secs@) =~= Seq::<SectionView>::empty());
            assert(section_views(secs@) + t0->Some_0 =~= t0->Some_0);
        }
    }
    while i < lines.len()
        invariant
            i <= lines@.len(),
            all_lines == views_of(lines@),
            tokenize(text@) == match tokenize_rest(all_lines.skip(i as int), opt_section_view(cur)) {
                Option::None => Option::None::<Seq<SectionView>>,
                Option::Some(r) => Option::Some(section_views(secs@) + r),
            },
        decreases lines.len() - i,
    {
        let ghost rest = all_lines.skip(i as int);
        let ghost pre_secs = section_views(secs@);
        let ghost pre_cur = opt_section_view(cur);
        proof {
            assert(rest[0] == all_lines[i as int]);
            assert(rest.drop_first() =~= all_lines.skip(i + 1));
        }
        match classify_exec(&lines[i]) {
            LineKind::Bad => {
                return Result::Err(IniError::Malformed);
            },
            LineKind::Blank => {
            },
            LineKind::Header(n) => {
                match cur {
                    Option::Some(s) => {
                        secs.push(s);
                    },
                    Option::None => {},
                }
                let name = string_from_chars(&n);
                cur = Option::Some(IniSection { name, props: Vec::new() });
                proof {
                    let new_view = SectionView { name: n@, props: Seq::empty() };
                    assert(opt_section_view(cur) == Option::Some(new_view)) by {
                        assert(cur->Some_0.props@.map_values(|p: IniProp| p@) =~= Seq::<
                            (Seq<char>, Seq<char>),
                        >::empty());
                    }
                    let after = tokenize_rest(all_lines.skip(i + 1), Option::Some(new_view));
                    if after is Some {
                        let r = after->Some_0;
                        match pre_cur {
                            Option::Some(s) => {
                                assert(tokenize_rest(rest, pre_cur) == Option::Some(seq![s] + r));
                                assert(section_views(secs@) =~= pre_secs.push(s));
                                assert(pre_secs + (seq![s] + r) =~= section_views(secs@) + r);
                            },
                            Option::None => {
                                assert(tokenize_rest(rest, pre_cur) == Option::Some(r));
                                assert(section_views(secs@) == pre_secs);
                            },
                        }
                    }
                }
            },
            LineKind::Prop(k, v) => {
                match cur {
                    Option::Some(mut s) => {
                        let key = string_from_chars(&k);
                        let value = string_from_chars(&v);
                        let ghost old_view = s@;
                        s.props.push(IniProp { key, value });
                        proof {
                            assert(s@.props =~= old_view.props.push((k@, v@)));
                        }
                        cur = Option::Some(s);
                    },
                    Option::None => {
                        cur = Option::None;
                    },
                }
            },
        }
        i = i + 1;
    }
    proof {
        assert(all_lines.skip(i as int) =~= Seq::<Seq<char>>::empty());
    }
    match cur {
        Option::Some(s) => {
            secs.push(s);
        },
        Option::None => {},
    }
    proof {
        assert(tokenize(text@) == Option::Some(section_views(secs@)));
    }
    Result::Ok(secs)
}

} // verus!
