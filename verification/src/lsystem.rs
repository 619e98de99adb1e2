//! L-system rules: parsing the rule text, rewriting the initial string, and reading the
//! rewritten string as turtle commands.
use std::collections::HashMap;
use vstd::prelude::*;

use crate::generators::{generated, kind_name, named_path, GeneratorKind};
use crate::model::PlotPath;
use crate::path::{PathEl, Point};
use crate::text::{chars_of, push_chars, string_from_chars, trim, trim_chars};

verus! {

broadcast use vstd::std_specs::hash::group_hash_axioms;

/// The rewrite rules of an L-system: each character maps to its replacement.
///
/// The rules are held in a hash map keyed by the character's code point; a
/// later insert for a character replaces the earlier rule.
pub struct RuleSet {
    rules: HashMap<u32, Vec<char>>,
}

impl View for RuleSet {
    type V = Map<char, Seq<char>>;

    closed spec fn view(&self) -> Map<char, Seq<char>> {
        Map::new(|c: char| self.rules@.contains_key(c as u32), |c: char| self.rules@[c as u32]@)
    }
}

impl RuleSet {
    /// A rule set with no rules.
    pub fn new() -> (r: Self)
        ensures
            r@ == Map::<char, Seq<char>>::empty(),
    {
        let r = RuleSet { rules: HashMap::new() };
        assert(r@ =~= Map::<char, Seq<char>>::empty());
        r
    }

    /// Sets the replacement of `key` to `value`, replacing any earlier one.
    pub fn insert(&mut self, key: char, value: Vec<char>)
        ensures
            final(self)@ == old(self)@.insert(key, value@),
    {
        let ghost v = value@;
        let ghost before = self.rules@;
        let k: u32 = key as u32;
        self.rules.insert(k, value);
        assert(self.rules@ == before.insert(k, self.rules@[k]));
        assert forall|c: char| #[trigger] self@.contains_key(c) == old(self)@.insert(key, v).contains_key(c) by {
            if c != key {
                vstd::utf8::char_u32_cast(c, c as u32);
                vstd::utf8::char_u32_cast(key, k);
                assert((c as u32) != k);
            }
        }
        assert forall|c: char| self@.contains_key(c) implies #[trigger] self@[c] == old(self)@.insert(key, v)[c] by {
            if c != key {
                vstd::utf8::char_u32_cast(c, c as u32);
                vstd::utf8::char_u32_cast(key, k);
                assert((c as u32) != k);
            }
        }
        assert(self@ =~= old(self)@.insert(key, v));
    }

    /// The replacement of `key`, if there is a rule for it.
    pub fn get(&self, key: char) -> (r: Option<&Vec<char>>)
        ensures
            r is None <==> !self@.contains_key(key),
            r matches Some(v) ==> v@ == self@[key],
    {
        let k: u32 = key as u32;
        self.rules.get(&k)
    }

    /// The replacement of `key` as a `String`, if there is a rule for it.
    pub fn get_string(&self, key: char) -> (r: Option<String>)
        ensures
            r is None <==> !self@.contains_key(key),
            r matches Some(v) ==> v@ == self@[key],
    {
        match self.get(key) {
            Some(v) => Some(crate::text::string_from_chars(v)),
            None => None,
        }
    }
}

/// The index of the first `c` in `s`, if any.
pub open spec fn find_char(s: Seq<char>, c: char) -> Option<nat>
    decreases s.len(),
{
    if s.len() == 0 {
        None
    } else if s[0] == c {
        Some(0)
    } else {
        match find_char(s.drop_first(), c) {
            Some(i) => Some(i + 1),
            None => None,
        }
    }
}

/// The rule a single line of rule text states, if any: the line is trimmed;
/// a blank line or one starting with `#` states none; otherwise the part before
/// the first `=`, trimmed, gives the key (its first character) and the part
/// after it, trimmed, the replacement.
pub open spec fn rule_of_line(line: Seq<char>) -> Option<(char, Seq<char>)> {
    let t = trim(line);
    if t.len() == 0 || t[0] == '#' {
        None
    } else {
        match find_char(t, '=') {
            None => None,
            Some(e) => {
                let k = trim(t.take(e as int));
                if k.len() == 0 {
                    None
                } else {
                    Some((k[0], trim(t.skip(e + 1 as int))))
                }
            },
        }
    }
}

/// The pieces of `s` between line breaks (`'\n'`), in order; a text with `n`
/// line breaks has `n + 1` pieces.
pub open spec fn split_lines(s: Seq<char>) -> Seq<Seq<char>>
    decreases s.len(),
{
    if s.len() == 0 {
        seq![Seq::<char>::empty()]
    } else {
        let prev = split_lines(s.drop_last());
        if s.last() == '\n' {
            prev.push(Seq::<char>::empty())
        } else {
            prev.update(prev.len() - 1, prev.last().push(s.last()))
        }
    }
}

/// The rules stated by a sequence of lines, a later line overriding an earlier one.
pub open spec fn rules_of_lines(ls: Seq<Seq<char>>) -> Map<char, Seq<char>>
    decreases ls.len(),
{
    if ls.len() == 0 {
        Map::empty()
    } else {
        let m = rules_of_lines(ls.drop_last());
        match rule_of_line(ls.last()) {
            Some(r) => m.insert(r.0, r.1),
            None => m,
        }
    }
}

/// The rules stated by a rule text.
pub open spec fn rules_of_text(s: Seq<char>) -> Map<char, Seq<char>> {
    rules_of_lines(split_lines(s))
}

proof fn lemma_split_lines_nonempty(s: Seq<char>)
    ensures
        split_lines(s).len() >= 1,
    decreases s.len(),
{
    if s.len() > 0 {
        lemma_split_lines_nonempty(s.drop_last());
    }
}

/// Adds the rule stated by `v[lo..hi]`, if any.
fn apply_line(rules: &mut RuleSet, v: &Vec<char>, lo: usize, hi: usize)
    requires
        lo <= hi <= v@.len(),
    ensures
        final(rules)@ == (match rule_of_line(v@.subrange(lo as int, hi as int)) {
            Some(r) => old(rules)@.insert(r.0, r.1),
            None => old(rules)@,
        }),
{
    let t = trim_chars(v, lo, hi);
    if t.len() == 0 || t[0] == '#' {
        return;
    }
    let mut e: usize = 0;
    assert(t@.skip(0) == t@);
    while e < t.len() && t[e] != '='
        invariant
            e <= t@.len(),
            forall|j: int| 0 <= j < e ==> t@[j] != '=',
            find_char(t@, '=') == (match find_char(t@.skip(e as int), '=') {
                Some(i) => Some((i + e) as nat),
                None => None,
            }),
        decreases t@.len() - e,
    {
        assert(t@.skip(e as int).drop_first() == t@.skip(e + 1));
        e = e + 1;
    }
    if e == t.len() {
        assert(t@.skip(e as int) =~= Seq::<char>::empty());
        return;
    }
    assert(find_char(t@.skip(e as int), '=') == Some(0nat));
    let key = trim_chars(&t, 0, e);
    assert(t@.subrange(0, e as int) == t@.take(e as int));
    if key.len() == 0 {
        return;
    }
    let value = trim_chars(&t, e + 1, t.len());
    assert(t@.subrange(e + 1, t@.len() as int) == t@.skip(e + 1));
    rules.insert(key[0], value);
}

/// Parses rule text: one rule per line written `C=Replacement`; blank lines
/// and lines starting with `#` are skipped, as are lines with no `=` or with
/// nothing before it; white space around the key and the replacement is
/// dropped; a later rule for a character replaces an earlier one.
pub fn parse_rules_text(text: &str) -> (rules: RuleSet)
    ensures
        rules@ == rules_of_text(text@),
{
    let v = chars_of(text);
    let n = v.len();
    let mut rules = RuleSet::new();
    let mut start: usize = 0;
    let mut i: usize = 0;
    proof {
        assert(v@.take(0) =~= Seq::<char>::empty());
        assert(v@.subrange(0, 0) =~= Seq::<char>::empty());
    }
    while i < n
        invariant
            n == v@.len(),
            start <= i <= n,
            split_lines(v@.take(i as int)).len() >= 1,
            split_lines(v@.take(i as int)).last() == v@.subrange(start as int, i as int),
            rules@ == rules_of_lines(split_lines(v@.take(i as int)).drop_last()),
        decreases n - i,
    {
        let ghost ls = split_lines(v@.take(i as int));
        proof {
            assert(v@.take(i + 1).drop_last() == v@.take(i as int));
            assert(v@.take(i + 1).last() == v@[i as int]);
        }
        if v[i] == '\n' {
            apply_line(&mut rules, &v, start, i);
            proof {
                let ls2 = split_lines(v@.take(i + 1));
                assert(ls2 == ls.push(Seq::<char>::empty()));
                assert(ls2.drop_last() == ls);
                assert(ls.drop_last().push(ls.last()) == ls);
                assert(v@.subrange(i + 1, i + 1) =~= Seq::<char>::empty());
            }
            start = i + 1;
        } else {
            proof {
                let ls2 = split_lines(v@.take(i + 1));
                assert(ls2 == ls.update(ls.len() - 1, ls.last().push(v@[i as int])));
                assert(ls2.drop_last() =~= ls.drop_last());
                assert(v@.subrange(start as int, i + 1) =~= v@.subrange(start as int, i as int).push(
                    v@[i as int],
                ));
            }
        }
        i = i + 1;
    }
    let ghost ls = split_lines(v@.take(n as int));
    apply_line(&mut rules, &v, start, n);
    proof {
        assert(v@.take(n as int) == v@);
        assert(ls.drop_last().push(ls.last()) == ls);
    }
    rules
}

/// What a character becomes in one rewriting step: its replacement when it
/// has a rule, else the character itself.
pub open spec fn image(c: char, m: Map<char, Seq<char>>) -> Seq<char> {
    if m.contains_key(c) {
        m[c]
    } else {
        seq![c]
    }
}

/// One rewriting step: every character replaced by its image, in order.
pub open spec fn rewrite(s: Seq<char>, m: Map<char, Seq<char>>) -> Seq<char>
    decreases s.len(),
{
    if s.len() == 0 {
        Seq::empty()
    } else {
        rewrite(s.drop_last(), m) + image(s.last(), m)
    }
}

/// `n` rewriting steps applied to `s`.
pub open spec fn iterate(s: Seq<char>, m: Map<char, Seq<char>>, n: nat) -> Seq<char>
    decreases n,
{
    if n == 0 {
        s
    } else {
        rewrite(iterate(s, m, (n - 1) as nat), m)
    }
}

/// One rewriting step of a concatenation rewrites each part on its own:
/// `rewrite(a + b) == rewrite(a) + rewrite(b)`.
pub proof fn lemma_rewrite_concat(a: Seq<char>, b: Seq<char>, m: Map<char, Seq<char>>)
    ensures
        rewrite(a + b, m) == rewrite(a, m) + rewrite(b, m),
    decreases b.len(),
{
    if b.len() == 0 {
        assert(a + b =~= a);
        assert(rewrite(a, m) + rewrite(b, m) =~= rewrite(a, m));
    } else {
        lemma_rewrite_concat(a, b.drop_last(), m);
        assert((a + b).drop_last() =~= a + b.drop_last());
        assert((a + b).last() == b.last());
        assert(rewrite(a, m) + rewrite(b.drop_last(), m) + image(b.last(), m) =~= rewrite(a, m) + (
        rewrite(b.drop_last(), m) + image(b.last(), m)));
    }
}

/// Expanding a concatenation expands each part on its own, for any number of
/// steps: `iterate(a + b, n) == iterate(a, n) + iterate(b, n)`.
pub proof fn lemma_iterate_concat(a: Seq<char>, b: Seq<char>, m: Map<char, Seq<char>>, n: nat)
    ensures
        iterate(a + b, m, n) == iterate(a, m, n) + iterate(b, m, n),
    decreases n,
{
    if n > 0 {
        lemma_iterate_concat(a, b, m, (n - 1) as nat);
        lemma_rewrite_concat(iterate(a, m, (n - 1) as nat), iterate(b, m, (n - 1) as nat), m);
    }
}

/// With no rules, rewriting leaves a string unchanged, however many steps are applied.
pub proof fn lemma_no_rules_unchanged(s: Seq<char>, n: nat)
    ensures
        iterate(s, Map::<char, Seq<char>>::empty(), n) == s,
    decreases n,
{
    if n > 0 {
        lemma_no_rules_unchanged(s, (n - 1) as nat);
        lemma_rewrite_empty_rules(s);
    }
}

proof fn lemma_rewrite_empty_rules(s: Seq<char>)
    ensures
        rewrite(s, Map::<char, Seq<char>>::empty()) == s,
    decreases s.len(),
{
    if s.len() > 0 {
        lemma_rewrite_empty_rules(s.drop_last());
        assert(s.drop_last() + seq![s.last()] =~= s);
    } else {
        assert(s =~= Seq::<char>::empty());
    }
}

proof fn lemma_split_lines_concat(a: Seq<char>, b: Seq<char>)
    ensures
        split_lines(a + seq!['\n'] + b) == split_lines(a) + split_lines(b),
    decreases b.len(),
{
    let s = a + seq!['\n'];
    if b.len() == 0 {
        assert(s + b =~= s);
        assert(s.drop_last() =~= a);
        assert(split_lines(b) =~= seq![Seq::<char>::empty()]);
        assert(split_lines(a).push(Seq::<char>::empty()) =~= split_lines(a) + split_lines(b));
    } else {
        lemma_split_lines_concat(a, b.drop_last());
        lemma_split_lines_nonempty(b.drop_last());
        assert((s + b).drop_last() =~= s + b.drop_last());
        assert((s + b).last() == b.last());
        let x = split_lines(a);
        let y = split_lines(b.drop_last());
        if b.last() == '\n' {
            assert((x + y).push(Seq::<char>::empty()) =~= x + y.push(Seq::<char>::empty()));
        } else {
            assert((x + y).update((x + y).len() - 1, (x + y).last().push(b.last())) =~= x + y.update(
                y.len() - 1,
                y.last().push(b.last()),
            ));
        }
    }
}

proof fn lemma_rules_of_lines_concat(x: Seq<Seq<char>>, y: Seq<Seq<char>>)
    ensures
        rules_of_lines(x + y) == rules_of_lines(x).union_prefer_right(rules_of_lines(y)),
    decreases y.len(),
{
    if y.len() == 0 {
        assert(x + y =~= x);
        assert(rules_of_lines(x).union_prefer_right(rules_of_lines(y)) =~= rules_of_lines(x));
    } else {
        lemma_rules_of_lines_concat(x, y.drop_last());
        assert((x + y).drop_last() =~= x + y.drop_last());
        assert((x + y).last() == y.last());
        match rule_of_line(y.last()) {
            Some(r) => {
                assert(rules_of_lines(x).union_prefer_right(rules_of_lines(y.drop_last())).insert(
                    r.0,
                    r.1,
                ) =~= rules_of_lines(x).union_prefer_right(
                    rules_of_lines(y.drop_last()).insert(r.0, r.1),
                ));
            },
            None => {},
        }
    }
}

/// Rule text read line by line: the rules of `a`, a line break and `b` are
/// those of `a` overridden by those of `b`.
pub proof fn lemma_rules_text_concat(a: Seq<char>, b: Seq<char>)
    ensures
        rules_of_text(a + seq!['\n'] + b) == rules_of_text(a).union_prefer_right(rules_of_text(b)),
{
    lemma_split_lines_concat(a, b);
    lemma_rules_of_lines_concat(split_lines(a), split_lines(b));
}

/// The commands the turtle reads from an L-system string.
#[derive(Clone, Copy, Debug, PartialEq, Eq, Structural)]
pub enum TurtleCommand {
    /// `F` or `G`: step forward drawing a line.
    Forward,
    /// `f`: step forward without drawing.
    Jump,
    /// `+`: turn by the angle.
    TurnPositive,
    /// `-`: turn back by the angle.
    TurnNegative,
    /// `[`: save position and heading.
    Push,
    /// `]` with a saved state: restore it (the pen moves there without drawing).
    Pop,
}

/// The commands read from `s`, and how many saved states remain open; a `]`
/// with no saved state is ignored, as is any character with no meaning.
pub open spec fn turtle_program(s: Seq<char>) -> (Seq<TurtleCommand>, nat)
    decreases s.len(),
{
    if s.len() == 0 {
        (Seq::empty(), 0)
    } else {
        let (cmds, depth) = turtle_program(s.drop_last());
        let c = s.last();
        if c == 'F' || c == 'G' {
            (cmds.push(TurtleCommand::Forward), depth)
        } else if c == 'f' {
            (cmds.push(TurtleCommand::Jump), depth)
        } else if c == '+' {
            (cmds.push(TurtleCommand::TurnPositive), depth)
        } else if c == '-' {
            (cmds.push(TurtleCommand::TurnNegative), depth)
        } else if c == '[' {
            (cmds.push(TurtleCommand::Push), depth + 1)
        } else if c == ']' && depth > 0 {
            (cmds.push(TurtleCommand::Pop), (depth - 1) as nat)
        } else {
            (cmds, depth)
        }
    }
}

/// How many times `c` occurs in `s`.
pub open spec fn count_char(s: Seq<char>, c: char) -> nat
    decreases s.len(),
{
    if s.len() == 0 {
        0
    } else {
        count_char(s.drop_last(), c) + if s.last() == c {
            1nat
        } else {
            0nat
        }
    }
}

/// How many times command `c` occurs in `cmds`.
pub open spec fn count_cmd(cmds: Seq<TurtleCommand>, c: TurtleCommand) -> nat
    decreases cmds.len(),
{
    if cmds.len() == 0 {
        0
    } else {
        count_cmd(cmds.drop_last(), c) + if cmds.last() == c {
            1nat
        } else {
            0nat
        }
    }
}

/// Every `[` is read as a save, and the saved states still open are those
/// saved and not yet restored.
proof fn lemma_turtle_counts(s: Seq<char>)
    ensures
        count_cmd(turtle_program(s).0, TurtleCommand::Push) == count_char(s, '['),
        count_cmd(turtle_program(s).0, TurtleCommand::Pop) <= count_char(s, '['),
        turtle_program(s).1 == count_char(s, '[') - count_cmd(turtle_program(s).0, TurtleCommand::Pop),
    decreases s.len(),
{
    if s.len() > 0 {
        lemma_turtle_counts(s.drop_last());
        let cmds = turtle_program(s.drop_last()).0;
        let r = turtle_program(s).0;
        if r.len() > cmds.len() {
            assert(r.drop_last() == cmds);
        } else {
            assert(r == cmds);
        }
    }
}

/// The turtle reads a `]` as restoring a saved state exactly when more `[`
/// than restores come before it: the saved states nest to any depth. Reading
/// the `]` adds that one restore, or nothing.
pub proof fn lemma_close_bracket_restores(s: Seq<char>, i: int)
    requires
        0 <= i < s.len(),
        s[i] == ']',
    ensures
        turtle_program(s.take(i + 1)).0 == if count_char(s.take(i), '[') > count_cmd(
            turtle_program(s.take(i)).0,
            TurtleCommand::Pop,
        ) {
            turtle_program(s.take(i)).0.push(TurtleCommand::Pop)
        } else {
            turtle_program(s.take(i)).0
        },
{
    let t = s.take(i + 1);
    assert(t.drop_last() =~= s.take(i));
    assert(t.last() == ']');
    lemma_turtle_counts(s.take(i));
}

/// Every `[` of an L-system string is read as a save, and a string whose
/// brackets balance (each prefix has at least as many `[` as `]`) has every
/// `]` read as a restore.
pub proof fn lemma_balanced_brackets_all_restore(s: Seq<char>)
    requires
        forall|i: int| 0 <= i <= s.len() ==> count_char(#[trigger] s.take(i), ']') <= count_char(s.take(i), '['),
    ensures
        count_cmd(turtle_program(s).0, TurtleCommand::Push) == count_char(s, '['),
        count_cmd(turtle_program(s).0, TurtleCommand::Pop) == count_char(s, ']'),
    decreases s.len(),
{
    lemma_turtle_counts(s);
    if s.len() > 0 {
        let d = s.drop_last();
        assert forall|i: int| 0 <= i <= d.len() implies count_char(#[trigger] d.take(i), ']') <= count_char(d.take(i), '[') by {
            assert(d.take(i) =~= s.take(i));
        }
        lemma_balanced_brackets_all_restore(d);
        assert(s.take(s.len() as int) =~= s);
        let cmds = turtle_program(d).0;
        let r = turtle_program(s).0;
        lemma_turtle_counts(d);
        if r.len() > cmds.len() {
            assert(r.drop_last() == cmds);
        } else {
            assert(r == cmds);
        }
    }
}

/// The element a command adds to the traced path, given the turtle's
/// position after it: a line for a step forward, a move for a jump or a
/// restored state, nothing for a turn or a save.
pub open spec fn turtle_element(c: TurtleCommand, p: Point) -> Option<PathEl<Point>> {
    match c {
        TurtleCommand::Forward => Some(PathEl::LineTo(p)),
        TurtleCommand::Jump => Some(PathEl::MoveTo(p)),
        TurtleCommand::Pop => Some(PathEl::MoveTo(p)),
        _ => None,
    }
}

/// The elements added by the commands `cmds`, `positions[i]` being the
/// turtle's position after command `i`.
pub open spec fn traced(cmds: Seq<TurtleCommand>, positions: Seq<Point>) -> Seq<PathEl<Point>>
    decreases cmds.len(),
{
    if cmds.len() == 0 {
        Seq::empty()
    } else {
        let rest = traced(cmds.drop_last(), positions);
        match turtle_element(cmds.last(), positions[cmds.len() - 1]) {
            Some(el) => rest.push(el),
            None => rest,
        }
    }
}

/// The L-system generator: rewriting and turtle reading.
pub struct LSystemGenerator;

impl LSystemGenerator {
    /// The generator's kind.
    pub fn kind(&self) -> (k: GeneratorKind)
        ensures
            k == GeneratorKind::LSystem,
    {
        GeneratorKind::LSystem
    }

    /// The generator's name.
    pub fn name(&self) -> (s: &'static str)
        ensures
            s@ == kind_name(GeneratorKind::LSystem),
    {
        proof {
            reveal_strlit("L-System");
        }
        "L-System"
    }

    /// The path the turtle draws, named `L-System`: it starts with a move to
    /// the origin, then each command adds its element (see `traced`);
    /// `positions[i]` is the turtle's position after command `i`.
    pub fn trace(commands: &Vec<TurtleCommand>, positions: &Vec<Point>) -> (p: PlotPath)
        requires
            positions@.len() == commands@.len(),
        ensures
            generated(
                p@,
                "L-System"@,
                seq![PathEl::MoveTo(Point::spec_zero())] + traced(commands@, positions@),
                false,
            ),
    {
        proof {
            reveal_strlit("L-System");
        }
        let mut g: Vec<PathEl<Point>> = Vec::new();
        g.push(PathEl::MoveTo(Point::zero()));
        let n = commands.len();
        let mut i: usize = 0;
        while i < n
            invariant
                n == commands@.len() == positions@.len(),
                i <= n,
                g@ == seq![PathEl::MoveTo(Point::spec_zero())] + traced(commands@.take(i as int), positions@),
            decreases n - i,
        {
            let p = positions[i];
            match commands[i] {
                TurtleCommand::Forward => g.push(PathEl::LineTo(p)),
                TurtleCommand::Jump => g.push(PathEl::MoveTo(p)),
                TurtleCommand::Pop => g.push(PathEl::MoveTo(p)),
                _ => {},
            }
            proof {
                let t = commands@.take(i + 1);
                assert(t.drop_last() == commands@.take(i as int));
                assert(t.last() == commands@[i as int]);
                assert(t.len() - 1 == i);
            }
            i = i + 1;
        }
        assert(commands@.take(n as int) == commands@);
        named_path(g, false, string_from_chars(&chars_of("L-System")))
    }

    /// Applies `iterations` rewriting steps to the initial string.
    pub fn expand(initial: &str, rules: &RuleSet, iterations: u32) -> (r: Vec<char>)
        ensures
            r@ == iterate(initial@, rules@, iterations as nat),
    {
        let mut current = chars_of(initial);
        let mut k: u32 = 0;
        while k < iterations
            invariant
                k <= iterations,
                current@ == iterate(initial@, rules@, k as nat),
            decreases iterations - k,
        {
            let mut next: Vec<char> = Vec::new();
            let n = current.len();
            let mut i: usize = 0;
            while i < n
                invariant
                    n == current@.len(),
                    i <= n,
                    next@ == rewrite(current@.take(i as int), rules@),
                decreases n - i,
            {
                let ch = current[i];
                match rules.get(ch) {
                    Some(replacement) => push_chars(&mut next, replacement),
                    None => next.push(ch),
                }
                proof {
                    let t = current@.take(i + 1);
                    assert(t.drop_last() == current@.take(i as int));
                    assert(t.last() == ch);
                    if !rules@.contains_key(ch) {
                        assert(seq![ch] == Seq::<char>::empty().push(ch));
                        assert(next@ =~= rewrite(current@.take(i as int), rules@) + seq![ch]);
                    }
                }
                i = i + 1;
            }
            assert(current@.take(n as int) == current@);
            current = next;
            k = k + 1;
        }
        current
    }

    /// Reads an L-system string as turtle commands.
    pub fn turtle_commands(program: &Vec<char>) -> (r: Vec<TurtleCommand>)
        ensures
            r@ == turtle_program(program@).0,
    {
        let mut cmds: Vec<TurtleCommand> = Vec::new();
        let mut depth: usize = 0;
        let n = program.len();
        let mut i: usize = 0;
        while i < n
            invariant
                n == program@.len(),
                i <= n,
                cmds@ == turtle_program(program@.take(i as int)).0,
                depth == turtle_program(program@.take(i as int)).1,
                depth <= i,
            decreases n - i,
        {
            let c = program[i];
            proof {
                let t = program@.take(i + 1);
                assert(t.drop_last() == program@.take(i as int));
                assert(t.last() == c);
            }
            if c == 'F' || c == 'G' {
                cmds.push(TurtleCommand::Forward);
            } else if c == 'f' {
                cmds.push(TurtleCommand::Jump);
            } else if c == '+' {
                cmds.push(TurtleCommand::TurnPositive);
            } else if c == '-' {
                cmds.push(TurtleCommand::TurnNegative);
            } else if c == '[' {
                cmds.push(TurtleCommand::Push);
                depth = depth + 1;
            } else if c == ']' && depth > 0 {
                cmds.push(TurtleCommand::Pop);
                depth = depth - 1;
            }
            i = i + 1;
        }
        assert(program@.take(n as int) == program@);
        cmds
    }
}

} // verus!
