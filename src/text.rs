//! Prompt templates with numbered argument slots, and list joining.
use vstd::prelude::*;
use vstd::string::{StrSliceExecFns, StringExecFns};

verus! {

/// The value of a string of decimal digits.
pub open spec fn decimal_value(s: Seq<char>) -> nat
    decreases s.len(),
{
    if s.len() == 0 {
        0
    } else {
        (decimal_value(s.drop_last()) * 10 + (s.last() as u32 - '0' as u32)) as nat
    }
}

pub open spec fn all_digits(s: Seq<char>) -> bool {
    forall|i: int| 0 <= i < s.len() ==> '0' <= #[trigger] s[i] && s[i] <= '9'
}

/// A decimal number: an optional `+`, then at least one digit, with a value
/// that fits `usize`.
pub open spec fn parsed_usize(s: Seq<char>) -> Option<usize> {
    let d = if s.len() > 0 && s[0] == '+' {
        s.drop_first()
    } else {
        s
    };
    if d.len() > 0 && all_digits(d) && decimal_value(d) <= usize::MAX {
        Some(decimal_value(d) as usize)
    } else {
        None
    }
}

/// Relies on `String::push`: appends one character.
#[verifier::external_body]
fn append_char(s: &mut String, c: char)
    ensures
        final(s)@ == old(s)@.push(c),
{
    s.push(c);
}

/// A decimal prefix is worth no more than the whole number.
proof fn lemma_decimal_prefix(d: Seq<char>, k: int)
    requires
        all_digits(d),
        0 <= k <= d.len(),
    ensures
        decimal_value(d.subrange(0, k)) <= decimal_value(d),
    decreases d.len(),
{
    if k == d.len() {
        assert(d.subrange(0, k) =~= d);
    } else {
        let p = d.drop_last();
        assert(all_digits(p)) by {
            assert forall|i: int| 0 <= i < p.len() implies '0' <= #[trigger] p[i] && p[i] <= '9' by {
                assert(p[i] == d[i]);
            }
        }
        lemma_decimal_prefix(p, k);
        assert(p.subrange(0, k) =~= d.subrange(0, k));
        assert('0' <= d[d.len() - 1]);
    }
}

/// Reads a decimal number as `str::parse::<usize>` does: an optional `+`,
/// then at least one digit and nothing else, with a value that fits.
fn parse_usize(s: &str) -> (r: Option<usize>)
    ensures
        r == parsed_usize(s@),
{
    let n = s.unicode_len();
    let mut start: usize = 0;
    if n > 0 && s.get_char(0) == '+' {
        start = 1;
    }
    if start == n {
        return None;
    }
    let ghost d = s@.subrange(start as int, n as int);
    assert(d =~= (if s@.len() > 0 && s@[0] == '+' { s@.drop_first() } else { s@ }));
    let mut value: usize = 0;
    let mut i: usize = start;
    assert(d.subrange(0, 0) =~= Seq::<char>::empty());
    while i < n
        invariant
            start <= i <= n,
            n == s@.len(),
            d == s@.subrange(start as int, n as int),
            d == (if s@.len() > 0 && s@[0] == '+' { s@.drop_first() } else { s@ }),
            d.len() > 0,
            all_digits(d.subrange(0, i - start)),
            value == decimal_value(d.subrange(0, i - start)),
        decreases n - i,
    {
        let c = s.get_char(i);
        assert(d[i - start] == c);
        if c < '0' || c > '9' {
            assert(!('0' <= d[i - start] && d[i - start] <= '9'));
            assert(!all_digits(d));
            return None;
        }
        let digit = (c as u32 - '0' as u32) as usize;
        let ghost next = d.subrange(0, i - start + 1);
        assert(next.drop_last() =~= d.subrange(0, i - start));
        assert(all_digits(next)) by {
            assert forall|j: int| 0 <= j < next.len() implies '0' <= #[trigger] next[j] && next[j] <= '9' by {
                if j < next.len() - 1 {
                    assert(next[j] == d.subrange(0, i - start)[j]);
                }
            }
        }
        assert(decimal_value(next) == value * 10 + digit);
        if value > (usize::MAX - digit) / 10 {
            assert(value * 10 + digit > usize::MAX) by (nonlinear_arith)
                requires
                    value > (usize::MAX - digit) / 10,
                    digit <= 9,
            ;
            proof {
                if all_digits(d) {
                    lemma_decimal_prefix(d, (i - start + 1) as int);
                }
            }
            return None;
        }
        assert(value * 10 + digit <= usize::MAX) by (nonlinear_arith)
            requires
                value <= (usize::MAX - digit) / 10,
                digit <= 9,
        ;
        value = value * 10 + digit;
        i = i + 1;
    }
    assert(d.subrange(0, n - start) =~= d);
    Some(value)
}

/// The items of `v`, each followed by `", "`.
pub open spec fn joined(v: Seq<Seq<char>>) -> Seq<char>
    decreases v.len(),
{
    if v.len() == 0 {
        Seq::<char>::empty()
    } else {
        joined(v.drop_last()) + v.last() + seq![',', ' ']
    }
}

pub open spec fn strings_view(v: Seq<String>) -> Seq<Seq<char>> {
    v.map_values(|s: String| s@)
}

/// Joins the items of `vec`, each followed by `", "`.
pub fn get_string(vec: &Vec<String>) -> (r: String)
    ensures
        r@ == joined(strings_view(vec@)),
{
    let ghost all = strings_view(vec@);
    let mut acc = String::new();
    let mut i: usize = 0;
    while i < vec.len()
        invariant
            i <= vec@.len(),
            all == strings_view(vec@),
            acc@ == joined(all.subrange(0, i as int)),
        decreases vec@.len() - i,
    {
        let ghost pre = all.subrange(0, i as int);
        let ghost post = all.subrange(0, i + 1);
        assert(post.drop_last() =~= pre);
        assert(post.last() == vec@[i as int]@);
        acc.append(vec[i].as_str());
        proof {
            reveal_strlit(", ");
        }
        acc.append(", ");
        assert(acc@ =~= joined(post));
        i = i + 1;
    }
    assert(all.subrange(0, vec@.len() as int) =~= all);
    acc
}

/// Where the template parser stands after a prefix of the text.
pub struct ParseState {
    pub sections: Seq<Seq<char>>,
    pub positions: Seq<usize>,
    pub section: Seq<char>,
    pub argument: Seq<char>,
    pub in_section: bool,
}

/// One character of template text. `{` ends a text section and opens an
/// argument slot (a second `{` abandons the slot); `}` closes the slot, whose
/// text must be a decimal number.
pub open spec fn parse_step(st: ParseState, c: char) -> Option<ParseState> {
    if c == '{' {
        if st.in_section {
            Some(ParseState {
                sections: st.sections.push(st.section),
                section: Seq::<char>::empty(),
                in_section: false,
                ..st
            })
        } else {
            Some(ParseState { argument: Seq::<char>::empty(), in_section: true, ..st })
        }
    } else if c == '}' {
        match parsed_usize(st.argument) {
            None => None,
            Some(n) => Some(ParseState {
                positions: st.positions.push(n),
                argument: Seq::<char>::empty(),
                in_section: true,
                ..st
            }),
        }
    } else if st.in_section {
        Some(ParseState { section: st.section.push(c), ..st })
    } else {
        Some(ParseState { argument: st.argument.push(c), ..st })
    }
}

/// The parser state after the characters `cs`, or `None` at a bad slot.
pub open spec fn parse_run(st: ParseState, cs: Seq<char>) -> Option<ParseState>
    decreases cs.len(),
{
    if cs.len() == 0 {
        Some(st)
    } else {
        match parse_step(st, cs[0]) {
            None => None,
            Some(s2) => parse_run(s2, cs.drop_first()),
        }
    }
}

pub open spec fn initial_parse_state() -> ParseState {
    ParseState {
        sections: Seq::<Seq<char>>::empty(),
        positions: Seq::<usize>::empty(),
        section: Seq::<char>::empty(),
        argument: Seq::<char>::empty(),
        in_section: true,
    }
}

/// Sections and slot numbers of a template text: the text sections in order,
/// the last one after the final slot included.
pub open spec fn template_of(text: Seq<char>) -> Option<(Seq<Seq<char>>, Seq<usize>)> {
    match parse_run(initial_parse_state(), text) {
        None => None,
        Some(st) => Some((st.sections.push(st.section), st.positions)),
    }
}

/// Text sections separated by numbered argument slots.
#[derive(Debug)]
pub struct PromptTemplate {
    text_sections: Vec<String>,
    position_argument: Vec<usize>,
}

/// Each section followed by the argument its slot names, where it has one.
pub open spec fn render(sections: Seq<Seq<char>>, positions: Seq<usize>, args: Seq<Seq<char>>) -> Seq<char>
    decreases sections.len(),
{
    if sections.len() == 0 {
        Seq::<char>::empty()
    } else {
        let i = sections.len() - 1;
        render(sections.drop_last(), positions, args) + sections.last() + if i < positions.len() {
            args[positions[i] as int]
        } else {
            Seq::<char>::empty()
        }
    }
}

impl PromptTemplate {
    pub closed spec fn sections(&self) -> Seq<Seq<char>> {
        strings_view(self.text_sections@)
    }

    pub closed spec fn positions(&self) -> Seq<usize> {
        self.position_argument@
    }

    /// Reads a template text; `None` where a slot does not hold a number.
    pub fn parse(text: &str) -> (r: Option<PromptTemplate>)
        ensures
            match r {
                Some(t) => template_of(text@) == Some((t.sections(), t.positions())),
                None => template_of(text@) is None,
            },
    {
        let n = text.unicode_len();
        let mut text_sections: Vec<String> = Vec::new();
        let mut position_argument: Vec<usize> = Vec::new();
        let mut current_section = String::new();
        let mut current_argument = String::new();
        let mut in_section = true;
        let mut i: usize = 0;
        assert(text@.skip(0) =~= text@);
        assert(strings_view(text_sections@) =~= Seq::<Seq<char>>::empty());
        assert(ParseState {
            sections: strings_view(text_sections@),
            positions: position_argument@,
            section: current_section@,
            argument: current_argument@,
            in_section,
        } == initial_parse_state());
        while i < n
            invariant
                n == text@.len(),
                i <= n,
                parse_run(initial_parse_state(), text@) == parse_run(
                    ParseState {
                        sections: strings_view(text_sections@),
                        positions: position_argument@,
                        section: current_section@,
                        argument: current_argument@,
                        in_section,
                    },
                    text@.skip(i as int),
                ),
            decreases n - i,
        {
            let c = text.get_char(i);
            let ghost st = ParseState {
                sections: strings_view(text_sections@),
                positions: position_argument@,
                section: current_section@,
                argument: current_argument@,
                in_section,
            };
            assert(text@.skip(i as int)[0] == c);
            assert(text@.skip(i as int).drop_first() =~= text@.skip(i + 1));
            if c == '{' {
                if in_section {
                    let ghost before = strings_view(text_sections@);
                    text_sections.push(current_section);
                    assert(strings_view(text_sections@) =~= before.push(st.section));
                    current_section = String::new();
                    in_section = false;
                } else {
                    current_argument = String::new();
                    in_section = true;
                }
            } else if c == '}' {
                match parse_usize(current_argument.as_str()) {
                    None => return None,
                    Some(k) => {
                        position_argument.push(k);
                        current_argument = String::new();
                        in_section = true;
                    },
                }
            } else if in_section {
                append_char(&mut current_section, c);
            } else {
                append_char(&mut current_argument, c);
            }
            i = i + 1;
        }
        assert(text@.skip(n as int) =~= Seq::<char>::empty());
        let ghost before = strings_view(text_sections@);
        let ghost last = current_section@;
        text_sections.push(current_section);
        assert(strings_view(text_sections@) =~= before.push(last));
        Some(PromptTemplate { text_sections, position_argument })
    }

    /// Every slot names one of `n` arguments.
    pub open spec fn slots_below(&self, n: nat) -> bool {
        forall|i: int| 0 <= i < self.positions().len() ==> (#[trigger] self.positions()[i]) < n
    }

    /// Whether `format` can fill the slots from `n` arguments.
    pub fn accepts(&self, n: usize) -> (r: bool)
        ensures
            r == self.slots_below(n as nat),
    {
        let mut i: usize = 0;
        while i < self.position_argument.len()
            invariant
                i <= self.positions().len(),
                self.positions() == self.position_argument@,
                forall|j: int| 0 <= j < i ==> (#[trigger] self.positions()[j]) < n,
            decreases self.position_argument@.len() - i,
        {
            if self.position_argument[i] >= n {
                return false;
            }
            i = i + 1;
        }
        true
    }

    /// Fills the slots with `args`: each section, then the argument its slot
    /// names.
    pub fn format(&self, args: Vec<String>) -> (r: String)
        requires
            self.slots_below(args@.len()),
        ensures
            r@ == render(self.sections(), self.positions(), strings_view(args@)),
    {
        let ghost secs = self.sections();
        let ghost av = strings_view(args@);
        let mut formatted = String::new();
        let mut i: usize = 0;
        while i < self.text_sections.len()
            invariant
                i <= self.text_sections@.len(),
                secs == self.sections(),
                av == strings_view(args@),
                self.slots_below(args@.len()),
                formatted@ == render(secs.subrange(0, i as int), self.positions(), av),
            decreases self.text_sections@.len() - i,
        {
            let ghost pre = secs.subrange(0, i as int);
            let ghost post = secs.subrange(0, i + 1);
            assert(post.drop_last() =~= pre);
            assert(post.last() == self.text_sections@[i as int]@);
            formatted.append(self.text_sections[i].as_str());
            if i < self.position_argument.len() {
                let k = self.position_argument[i];
                assert(k < args@.len());
                assert(av[k as int] == args@[k as int]@);
                formatted.append(args[k].as_str());
            }
            assert(formatted@ =~= render(post, self.positions(), av));
            i = i + 1;
        }
        assert(secs.subrange(0, secs.len() as int) =~= secs);
        formatted
    }
}

/// How one persona stands to another.
#[derive(Clone, Copy, Debug, PartialEq, Eq, Structural)]
pub enum Relationship {
    Friend,
    Foe,
    Stranger,
    Acquaintance,
    SignificantOther,
    Paramour,
    Spouse,
    Sibling,
    Parent,
    Child,
    Grandparent,
    Grandchild,
    Aunt,
    Uncle,
    Niece,
    Nephew,
    Cousin,
    InLaw,
}

impl Relationship {
    /// The relationship as prose.
    pub open spec fn name(self) -> Seq<char> {
        match self {
            Relationship::Friend => "Friend"@,
            Relationship::Foe => "Foe"@,
            Relationship::Stranger => "Stranger"@,
            Relationship::Acquaintance => "Acquaintance"@,
            Relationship::SignificantOther => "Significant Other"@,
            Relationship::Paramour => "Paramour"@,
            Relationship::Spouse => "Spouse"@,
            Relationship::Sibling => "Sibling"@,
            Relationship::Parent => "Parent"@,
            Relationship::Child => "Child"@,
            Relationship::Grandparent => "Grandparent"@,
            Relationship::Grandchild => "Grandchild"@,
            Relationship::Aunt => "Aunt"@,
            Relationship::Uncle => "Uncle"@,
            Relationship::Niece => "Niece"@,
            Relationship::Nephew => "Nephew"@,
            Relationship::Cousin => "Cousin"@,
            Relationship::InLaw => "In Law"@,
        }
    }

    pub fn to_text(self) -> (r: String)
        ensures
            r@ == self.name(),
    {
        match self {
            Relationship::Friend => "Friend".to_string(),
            Relationship::Foe => "Foe".to_string(),
            Relationship::Stranger => "Stranger".to_string(),
            Relationship::Acquaintance => "Acquaintance".to_string(),
            Relationship::SignificantOther => "Significant Other".to_string(),
            Relationship::Paramour => "Paramour".to_string(),
            Relationship::Spouse => "Spouse".to_string(),
            Relationship::Sibling => "Sibling".to_string(),
            Relationship::Parent => "Parent".to_string(),
            Relationship::Child => "Child".to_string(),
            Relationship::Grandparent => "Grandparent".to_string(),
            Relationship::Grandchild => "Grandchild".to_string(),
            Relationship::Aunt => "Aunt".to_string(),
            Relationship::Uncle => "Uncle".to_string(),
            Relationship::Niece => "Niece".to_string(),
            Relationship::Nephew => "Nephew".to_string(),
            Relationship::Cousin => "Cousin".to_string(),
            Relationship::InLaw => "In Law".to_string(),
        }
    }
}

} // verus!
