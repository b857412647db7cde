//! Properties that hold of every input, stated over the specifications of the
//! library's functions.
use vstd::prelude::*;
use crate::command_parser::{
    camel_case, command_arg, command_parts, comma_scan, finder_option_spec, finder_spec,
    lookup_definition,
    toplevel_pieces, CommaScan,
};
use crate::execute::{executed, inserted, insertion_text, indentation, previous_line};
use crate::model::{DefinitionView, FinderOption, FinderView, InsertCommandView, LineCommandView};
use crate::command_parser::{insert_command_spec, CommandView};
use crate::command_parser::comma_step;
use crate::error::ScriptErrorView;
use crate::parse::{step_spec, ScriptRunView};
use crate::pattern::regex_first_match;
use crate::string_utils::{
    found_at, inside_parens, lemma_location_in_range, location, newline_positions, without_parens,
    FinderError,
};
use crate::text::{
    decimal_text, digit_char, digit_value, digits_value, all_digits, i32_text, is_white_space,
    leading_ws, lemma_first_index_in_range, has_char, contains, lowercase, lemma_last_index_in_range, lines_of, parse_i32,
    trailing_ws, trim, unsigned_part, split_on, first_index_of, last_index_of, find_first,
    lemma_find_first_occurs, occurs_at,
};

verus! {

// ---------------------------------------------------------------------------
// Lines
// ---------------------------------------------------------------------------

/// The characters of a sequence of texts, one after the other.
pub open spec fn concat_all(ss: Seq<Seq<char>>) -> Seq<char>
    decreases ss.len(),
{
    if ss.len() == 0 {
        Seq::<char>::empty()
    } else {
        concat_all(ss.drop_last()) + ss.last()
    }
}

/// Splitting a script into lines loses and adds nothing: its lines, one
/// after the other, are the script.
pub proof fn law_lines_cover_script(s: Seq<char>)
    ensures
        concat_all(lines_of(s)) == s,
    decreases s.len(),
{
    if s.len() > 0 {
        law_lines_cover_script(s.drop_last());
        let p = lines_of(s.drop_last());
        let c = s.last();
        if p.len() == 0 || p.last().last() == '\n' {
            assert(p.push(seq![c]).drop_last() =~= p);
        } else {
            let q = p.update(p.len() - 1, p.last().push(c));
            assert(q.drop_last() =~= p.drop_last());
            assert(concat_all(p) == concat_all(p.drop_last()) + p.last());
        }
        assert(s.drop_last().push(c) =~= s);
    } else {
        assert(concat_all(lines_of(s)) =~= s);
    }
}

/// Every line is non-empty and holds a newline at most at its end, and
/// every line but the last ends with one.
pub proof fn law_lines_are_lines(s: Seq<char>)
    ensures
        forall|k: int|
            #![trigger lines_of(s)[k]]
            0 <= k < lines_of(s).len() ==> lines_of(s)[k].len() > 0 && (forall|j: int|
                0 <= j < lines_of(s)[k].len() - 1 ==> lines_of(s)[k][j] != '\n') && (k
                < lines_of(s).len() - 1 ==> lines_of(s)[k].last() == '\n'),
    decreases s.len(),
{
    if s.len() > 0 {
        let t = s.drop_last();
        let c = s.last();
        law_lines_are_lines(t);
        let p = lines_of(t);
        let q = lines_of(s);
        assert forall|k: int| #![trigger q[k]] 0 <= k < q.len() implies q[k].len() > 0 && (forall|
            j: int,
        | 0 <= j < q[k].len() - 1 ==> q[k][j] != '\n') && (k < q.len() - 1 ==> q[k].last()
            == '\n') by {
            if k < p.len() - 1 {
                assert(q[k] == p[k]);
            } else if k == p.len() - 1 {
                if p.last().last() == '\n' {
                    assert(q[k] == p[k]);
                } else {
                    assert(q[k] == p[k].push(c));
                    assert forall|j: int| 0 <= j < q[k].len() - 1 implies q[k][j] != '\n' by {
                        if j < p[k].len() - 1 {
                            assert(q[k][j] == p[k][j]);
                        } else {
                            assert(q[k][j] == p[k].last());
                        }
                    }
                }
            } else {
                assert(q[k] == seq![c]);
            }
        }
    }
}

/// Pieces joined again with a separator between each two.
pub open spec fn joined(ss: Seq<Seq<char>>, sep: char) -> Seq<char>
    decreases ss.len(),
{
    if ss.len() == 0 {
        Seq::<char>::empty()
    } else if ss.len() == 1 {
        ss[0]
    } else {
        joined(ss.drop_last(), sep) + seq![sep] + ss.last()
    }
}

/// Splitting at a separator loses and adds nothing: there is at least one
/// piece, no piece holds the separator, and the pieces joined again with
/// the separator are the text.
pub proof fn law_split_rejoins(s: Seq<char>, sep: char)
    ensures
        split_on(s, sep).len() >= 1,
        forall|k: int|
            0 <= k < split_on(s, sep).len() ==> !crate::text::has_char(
                #[trigger] split_on(s, sep)[k],
                sep,
            ),
        joined(split_on(s, sep), sep) == s,
    decreases s.len(),
{
    if s.len() == 0 {
        assert(joined(split_on(s, sep), sep) =~= s);
    } else {
        let t = s.drop_last();
        let x = s.last();
        law_split_rejoins(t, sep);
        let p = split_on(t, sep);
        let q = split_on(s, sep);
        if x == sep {
            assert(q.drop_last() =~= p);
            assert(joined(q, sep) =~= s);
            assert forall|k: int| 0 <= k < q.len() implies !crate::text::has_char(
                #[trigger] q[k],
                sep,
            ) by {
                if k < p.len() {
                    assert(q[k] == p[k]);
                }
            }
        } else {
            let y = p.last().push(x);
            assert forall|k: int| 0 <= k < q.len() implies !crate::text::has_char(
                #[trigger] q[k],
                sep,
            ) by {
                if k < p.len() - 1 {
                    assert(q[k] == p[k]);
                } else {
                    assert(q[k] == y);
                    assert forall|j: int| 0 <= j < y.len() implies y[j] != sep by {
                        if j < y.len() - 1 {
                            assert(y[j] == p.last()[j]);
                        }
                    }
                }
            }
            if p.len() == 1 {
                assert(joined(q, sep) == q[0]);
                assert(p[0] == joined(p, sep));
                assert(joined(q, sep) =~= s);
            } else {
                assert(q.drop_last() =~= p.drop_last());
                assert(joined(q, sep) == joined(p.drop_last(), sep) + seq![sep] + y);
                assert(joined(p, sep) == joined(p.drop_last(), sep) + seq![sep] + p.last());
                assert(joined(q, sep) =~= joined(p, sep).push(x));
                assert(joined(q, sep) =~= s);
            }
        }
    }
}

// ---------------------------------------------------------------------------
// Parentheses
// ---------------------------------------------------------------------------

/// What `remove_paren_contents` and `paren_contents` give put the text back
/// together: the text outside the parentheses, with the text inside them
/// wrapped in `(` and `)` put back at the place of the first `(`.
pub proof fn law_parens_partition(s: Seq<char>)
    ensures
        without_parens(s) matches Ok(outside) ==> (inside_parens(s) matches Ok(inside)
            ==> exists|f: int|
            0 <= f <= outside.len() && s == outside.take(f) + seq!['('] + inside + seq![')']
                + outside.skip(f)),
{
    lemma_first_index_in_range(s, '(');
    lemma_last_index_in_range(s, ')');
    if let Ok(outside) = without_parens(s) {
        if let Ok(inside) = inside_parens(s) {
            let f = first_index_of(s, '(').unwrap();
            let l = last_index_of(s, ')').unwrap();
            assert(outside.take(f) =~= s.take(f));
            assert(outside.skip(f) =~= s.skip(l + 1));
            assert(s =~= outside.take(f) + seq!['('] + inside + seq![')'] + outside.skip(f));
        }
    }
}

// ---------------------------------------------------------------------------
// Trimming and top-level pieces
// ---------------------------------------------------------------------------

proof fn lemma_leading_ws_props(s: Seq<char>)
    ensures
        leading_ws(s) <= s.len(),
        forall|k: int| 0 <= k < leading_ws(s) ==> is_white_space(#[trigger] s[k]),
        leading_ws(s) < s.len() ==> !is_white_space(s[leading_ws(s) as int]),
    decreases s.len(),
{
    if s.len() > 0 && is_white_space(s[0]) {
        lemma_leading_ws_props(s.drop_first());
        assert forall|k: int| 0 <= k < leading_ws(s) implies is_white_space(#[trigger] s[k]) by {
            if k > 0 {
                assert(s[k] == s.drop_first()[k - 1]);
            }
        }
    }
}

proof fn lemma_trailing_ws_props(s: Seq<char>)
    ensures
        trailing_ws(s) <= s.len(),
        forall|k: int| s.len() - trailing_ws(s) <= k < s.len() ==> is_white_space(#[trigger] s[k]),
        trailing_ws(s) < s.len() ==> !is_white_space(s[s.len() - trailing_ws(s) - 1]),
    decreases s.len(),
{
    if s.len() > 0 && is_white_space(s.last()) {
        let t = s.drop_last();
        lemma_trailing_ws_props(t);
        assert forall|k: int| s.len() - trailing_ws(s) <= k < s.len() implies is_white_space(
            #[trigger] s[k],
        ) by {
            if k < s.len() - 1 {
                assert(s[k] == t[k]);
            }
        }
    }
}

/// A trimmed text starts and ends with characters that are not white space.
proof fn lemma_trim_ends(s: Seq<char>)
    ensures
        trim(s).len() > 0 ==> !is_white_space(trim(s)[0]) && !is_white_space(trim(s).last()),
{
    lemma_leading_ws_props(s);
    let t = s.skip(leading_ws(s) as int);
    lemma_trailing_ws_props(t);
    let r = trim(s);
    if r.len() > 0 {
        assert(r[0] == s[leading_ws(s) as int]);
        assert(r.last() == t[t.len() - trailing_ws(t) - 1]);
    }
}

/// Trimming twice is trimming once.
pub proof fn law_trim_idempotent(s: Seq<char>)
    ensures
        trim(trim(s)) == trim(s),
{
    let r = trim(s);
    lemma_trim_ends(s);
    if r.len() > 0 {
        assert(leading_ws(r) == 0);
        assert(r.skip(0) =~= r);
        assert(trailing_ws(r) == 0);
        assert(r.take(r.len() as int) =~= r);
    } else {
        assert(r.skip(leading_ws(r) as int) =~= r);
    }
}

proof fn lemma_scan_pieces_trimmed(s: Seq<char>)
    ensures
        forall|k: int|
            0 <= k < comma_scan(s).0.len() ==> trim(#[trigger] comma_scan(s).0[k])
                == comma_scan(s).0[k],
    decreases s.len(),
{
    if s.len() > 0 {
        lemma_scan_pieces_trimmed(s.drop_last());
        law_trim_idempotent(comma_scan(s.drop_last()).1);
    }
}

/// Every argument that the top-level split gives is already trimmed.
pub proof fn law_toplevel_pieces_trimmed(s: Seq<char>)
    ensures
        toplevel_pieces(s) matches Some(p) ==> forall|k: int|
            0 <= k < p.len() ==> trim(#[trigger] p[k]) == p[k],
{
    lemma_scan_pieces_trimmed(s);
    law_trim_idempotent(comma_scan(s).1);
}

// ---------------------------------------------------------------------------
// Numbers
// ---------------------------------------------------------------------------

proof fn lemma_decimal_text(n: nat)
    ensures
        decimal_text(n).len() > 0,
        all_digits(decimal_text(n)),
        digits_value(decimal_text(n)) == n,
    decreases n,
{
    if n >= 10 {
        lemma_decimal_text(n / 10);
        let d = decimal_text(n);
        assert(d.drop_last() =~= decimal_text(n / 10));
        assert(digit_value(digit_char(n as int % 10)) == n as int % 10);
        assert(d.last() == digit_char(n as int % 10));
        assert((n / 10) * 10 + n % 10 == n) by (nonlinear_arith);
        assert(digits_value(d) == digits_value(d.drop_last()) * 10 + digit_value(d.last()));
        assert(digits_value(d.drop_last()) == n / 10);
        assert(digits_value(d) == (n / 10) * 10 + (n as int % 10));
        assert(digits_value(d) == n);
        assert forall|i: int| 0 <= i < d.len() implies crate::text::is_ascii_digit(#[trigger] d[i]) by {
            if i < d.len() - 1 {
                assert(d[i] == decimal_text(n / 10)[i]);
            }
        }
    } else {
        let d = decimal_text(n);
        assert(digit_value(digit_char(n as int)) == n);
        assert(d.drop_last() =~= Seq::<char>::empty());
        assert(d.last() == digit_char(n as int));
        assert(crate::text::is_ascii_digit(d[0]));
        assert(digits_value(d.drop_last()) == 0);
        assert(digits_value(d) == n);
    }
}

/// Reading back the decimal text of an `i32`, as a `LineRegex` offset is
/// described, gives the same number.
pub proof fn law_offset_text_round_trip(n: i32)
    ensures
        parse_i32(i32_text(n)) == Some(n),
{
    if n < 0 {
        let m = (-n) as nat;
        lemma_decimal_text(m);
        let s = i32_text(n);
        assert(s[0] == '-');
        assert(s.drop_first() =~= decimal_text(m));
        assert(unsigned_part(s) == (true, decimal_text(m)));
    } else {
        lemma_decimal_text(n as nat);
        let s = decimal_text(n as nat);
        assert(crate::text::is_ascii_digit(s[0]));
        assert(unsigned_part(s) == (false, s));
    }
}

// ---------------------------------------------------------------------------
// Definitions
// ---------------------------------------------------------------------------

/// A key keeps the value of its first definition: defining it again does
/// not change what `$key` gives, and a new key gets its value.
pub proof fn law_first_definition_wins(defs: Seq<DefinitionView>, d: DefinitionView, key: Seq<char>)
    ensures
        lookup_definition(defs.push(d), key) == (if lookup_definition(defs, key) is Some {
            lookup_definition(defs, key)
        } else if d.key == key {
            Some(d.value)
        } else {
            None
        }),
    decreases defs.len(),
{
    let e = defs.push(d);
    if defs.len() > 0 {
        assert(e[0] == defs[0]);
        assert(e.drop_first() =~= defs.drop_first().push(d));
        law_first_definition_wins(defs.drop_first(), d, key);
        if defs[0].key != key {
            assert(lookup_definition(e, key) == lookup_definition(e.drop_first(), key));
            assert(lookup_definition(defs, key) == lookup_definition(defs.drop_first(), key));
        }
    } else {
        assert(e[0] == d);
        assert(e.drop_first() =~= Seq::<DefinitionView>::empty());
    }
}

// ---------------------------------------------------------------------------
// Insertions
// ---------------------------------------------------------------------------

/// An insertion line only adds text: on success, the new contents are the
/// old contents with one block put in at one place, and that block starts a
/// new line.
pub proof fn law_execution_only_inserts(command: LineCommandView, contents: Seq<char>)
    ensures
        executed(command, contents) matches Ok(r) ==> exists|loc: int, block: Seq<char>|
            0 <= loc <= contents.len() && block.len() > 0 && block[0] == '\n' && r
                == contents.take(loc) + block + contents.skip(loc),
{
    if let LineCommandView::Insert(_, start, marker, insert) = command {
        lemma_location_in_range(contents, start);
        if let Ok((Ok(s), _)) = location(contents, start) {
            lemma_location_in_range(contents.skip(s), marker);
            if let Ok((Ok(i), options)) = location(contents.skip(s), marker) {
                if let Some(line) = previous_line(contents.take(s + i)) {
                    let block = insertion_text(insert, indentation(line), options);
                    match insert {
                        InsertCommandView::EnumCaseWithRaw(k, raw) => {
                            crate::text::lemma_newline_literal();
                            assert(block[0] == '\n');
                        },
                    }
                    assert(executed(command, contents) == Ok::<Seq<char>, crate::error::ScriptErrorView>(
                        contents.take(s + i) + block + contents.skip(s + i),
                    ));
                }
            }
        }
    }
}


// ---------------------------------------------------------------------------
// Running a script
// ---------------------------------------------------------------------------

/// A step of a script reads each line once and in order, and forgets
/// nothing: the lines stay, the definitions made before the step stay as
/// they were at the start of the list, and the next line index moves on by
/// one unless every line has been read.
pub proof fn law_step_keeps_state(st: ScriptRunView)
    ensures
        step_spec(st).1.lines == st.lines,
        step_spec(st).1.definitions.len() >= st.definitions.len(),
        step_spec(st).1.definitions.take(st.definitions.len() as int) == st.definitions,
        st.next < st.lines.len() ==> step_spec(st).1.next == st.next + 1,
        st.next >= st.lines.len() ==> step_spec(st).1 == st,
{
    assert(st.definitions.take(st.definitions.len() as int) =~= st.definitions);
    if st.next < st.lines.len() {
        let after = step_spec(st).1;
        if after.definitions.len() > st.definitions.len() {
            assert(after.definitions.take(st.definitions.len() as int) =~= st.definitions);
        }
    }
}


// ---------------------------------------------------------------------------
// Fallback finders
// ---------------------------------------------------------------------------

/// A fallback finder gives what its first finder gives when that finds a
/// location, with no options; otherwise it gives what the fallback gives,
/// with its own options. So its options are in force only when the fallback
/// was used.
pub proof fn law_fallback_options(
    hay: Seq<char>,
    first: FinderView,
    fallback: FinderView,
    opts: Seq<FinderOption>,
)
    ensures
        ({
            let f = FinderView::LastInSectionOrFallback(Box::new(first), Box::new(fallback), opts);
            &&& location(hay, first) matches Ok((Ok(i), _)) ==> location(hay, f) == found_at(i)
            &&& location(hay, first) matches Ok((Err(_), _)) ==> (location(hay, fallback) matches Ok(
                (r, _),
            ) ==> location(hay, f) == Ok::<
                (Result<int, FinderError>, Seq<FinderOption>),
                crate::error::ScriptErrorView,
            >((r, opts)))
        }),
{
}


// ---------------------------------------------------------------------------
// Letter case of names
// ---------------------------------------------------------------------------

/// Finder names are read whatever their letter case and surrounding white
/// space: two finder texts whose parenthesised arguments are the same, and
/// whose names are the same once lowercased and trimmed, are read alike.
pub proof fn law_finder_names_ignore_case(s1: Seq<char>, s2: Seq<char>, idx: usize)
    requires
        without_parens(s1) is Ok,
        without_parens(s2) is Ok,
        trim(crate::text::lowercase(without_parens(s1)->Ok_0)) == trim(
            crate::text::lowercase(without_parens(s2)->Ok_0),
        ),
        inside_parens(s1) == inside_parens(s2),
    ensures
        finder_spec(s1, idx) == finder_spec(s2, idx),
{
    lemma_first_index_in_range(s1, '(');
    lemma_first_index_in_range(s2, '(');
    assert(command_parts(s1) == command_parts(s2));
}

/// Finder options are read whatever their letter case.
pub proof fn law_finder_options_ignore_case(o1: Seq<char>, o2: Seq<char>, idx: usize)
    requires
        crate::text::lowercase(o1) == crate::text::lowercase(o2),
    ensures
        finder_option_spec(o1, idx) is Ok <==> finder_option_spec(o2, idx) is Ok,
        finder_option_spec(o1, idx) is Ok ==> finder_option_spec(o1, idx) == finder_option_spec(
            o2,
            idx,
        ),
{
}


// ---------------------------------------------------------------------------
// Arguments of insertion commands
// ---------------------------------------------------------------------------

/// The name `camelcase` is its own lowercase form.
proof fn lemma_lowercase_camelcase()
    ensures
        crate::text::lowercase("camelcase"@) == "camelcase"@,
{
    reveal_strlit("camelcase");
    let s = "camelcase"@;
    assert(crate::text::all_ascii(s));
    assert(s.map_values(|c: char| crate::text::ascii_lower_char(c)) =~= s);
}

/// `name(inner)`, with no parenthesis in `name`, is read as a command whose
/// name is `name` lowercased and trimmed and whose arguments are the
/// top-level pieces of `inner`.
proof fn lemma_command_parts_of_call(name: Seq<char>, inner: Seq<char>)
    requires
        !crate::text::has_char(name, '('),
        !crate::text::has_char(name, ')'),
        toplevel_pieces(inner) is Some,
    ensures
        ({
            let arg = name + seq!['('] + inner + seq![')'];
            &&& crate::text::has_char(arg, '(')
            &&& command_parts(arg) == Ok::<crate::command_parser::CommandView, crate::error::ScriptErrorView>(
                crate::command_parser::CommandView {
                    command: trim(crate::text::lowercase(name)),
                    args: toplevel_pieces(inner)->Some_0,
                },
            )
        }),
{
    let arg = name + seq!['('] + inner + seq![')'];
    let f = name.len() as int;
    let l = arg.len() - 1;
    assert(arg[f] == '(');
    assert forall|k: int| 0 <= k < f implies arg[k] != '(' by {
        assert(arg[k] == name[k]);
    }
    crate::text::lemma_first_index_is(arg, '(', f);
    assert(arg[l] == ')');
    crate::text::lemma_last_index_is(arg, ')', l);
    assert(arg.take(f) + arg.skip(l + 1) =~= name);
    assert(arg.subrange(f + 1, l) =~= inner);
}

/// `camelCase(x)`: when the name before the parentheses, lowercased and
/// trimmed, is `camelcase` and `x` has a first top-level argument `y`, the
/// argument's value is the camel case of the value of `y`; with a name that
/// lowercases to anything else, the argument is refused as an invalid command.
pub proof fn law_camel_case_argument(
    name: Seq<char>,
    inner: Seq<char>,
    defs: Seq<DefinitionView>,
)
    requires
        !crate::text::has_char(name, '('),
        !crate::text::has_char(name, ')'),
        toplevel_pieces(inner) is Some,
    ensures
        ({
            let arg = name + seq!['('] + inner + seq![')'];
            let command = trim(crate::text::lowercase(name));
            let pieces = toplevel_pieces(inner)->Some_0;
            &&& command == "camelcase"@ && pieces.len() > 0 ==> command_arg(arg, defs) == match command_arg(
                pieces[0],
                defs,
            ) {
                Ok(v) => Ok::<Seq<char>, crate::error::ScriptErrorView>(camel_case(v)),
                Err(e) => Err(e),
            }
            &&& crate::text::lowercase(command) != "camelcase"@ ==> command_arg(arg, defs) == Err::<
                Seq<char>,
                crate::error::ScriptErrorView,
            >(crate::error::ScriptErrorView::InvalidCommand(command))
        }),
{
    lemma_command_parts_of_call(name, inner);
    lemma_lowercase_camelcase();
}

// ---------------------------------------------------------------------------
// Counting characters
// ---------------------------------------------------------------------------

/// How many times `c` occurs in `s`.
pub open spec fn count_char(s: Seq<char>, c: char) -> nat
    decreases s.len(),
{
    if s.len() == 0 {
        0
    } else {
        count_char(s.drop_last(), c) + (if s.last() == c {
            1nat
        } else {
            0nat
        })
    }
}

proof fn lemma_count_concat(a: Seq<char>, b: Seq<char>, c: char)
    ensures
        count_char(a + b, c) == count_char(a, c) + count_char(b, c),
    decreases b.len(),
{
    if b.len() == 0 {
        assert(a + b =~= a);
    } else {
        lemma_count_concat(a, b.drop_last(), c);
        assert((a + b).drop_last() =~= a + b.drop_last());
    }
}

proof fn lemma_count_single(x: char, c: char)
    ensures
        count_char(seq![x], c) == (if x == c {
            1nat
        } else {
            0nat
        }),
{
    assert(count_char(Seq::<char>::empty(), c) == 0);
    assert(seq![x].drop_last() =~= Seq::<char>::empty());
    assert(seq![x].last() == x);
}

proof fn lemma_count_absent(s: Seq<char>, c: char)
    requires
        forall|k: int| 0 <= k < s.len() ==> s[k] != c,
    ensures
        count_char(s, c) == 0,
    decreases s.len(),
{
    if s.len() > 0 {
        let t = s.drop_last();
        assert forall|k: int| 0 <= k < t.len() implies t[k] != c by {
            assert(t[k] == s[k]);
        }
        lemma_count_absent(t, c);
    }
}

/// The newline positions of a text are the places of its newlines, one for
/// each, and the one numbered `k` has exactly `k` newlines before it.
proof fn lemma_newline_positions_count(s: Seq<char>)
    ensures
        newline_positions(s).len() == count_char(s, '\n'),
        forall|k: int|
            #![trigger newline_positions(s)[k]]
            0 <= k < newline_positions(s).len() ==> 0 <= newline_positions(s)[k] < s.len()
                && s[newline_positions(s)[k]] == '\n' && count_char(
                s.take(newline_positions(s)[k]),
                '\n',
            ) == k,
    decreases s.len(),
{
    if s.len() > 0 {
        let t = s.drop_last();
        lemma_newline_positions_count(t);
        let p = newline_positions(t);
        let q = newline_positions(s);
        assert forall|k: int| 0 <= k < q.len() implies 0 <= #[trigger] q[k] < s.len() && s[q[k]]
            == '\n' && count_char(s.take(q[k]), '\n') == k by {
            if k < p.len() {
                assert(q[k] == p[k]);
                assert(s[p[k]] == t[p[k]]);
                assert(s.take(p[k]) =~= t.take(p[k]));
            } else {
                assert(s.take(s.len() - 1) =~= t);
            }
        }
    }
}

// ---------------------------------------------------------------------------
// Line offsets
// ---------------------------------------------------------------------------

/// A `LineRegex` finder lands on a newline, counted from the first
/// occurrence `loc` of the text `t` that its pattern matched. With an offset
/// `n >= 0` the location is at or after `loc` and exactly `n` newlines lie
/// from `loc` up to it; with an offset `-n` the location is before `loc` and
/// exactly `n` newlines lie strictly between it and `loc`.
pub proof fn law_line_offset_counts_newlines(
    hay: Seq<char>,
    p: Seq<char>,
    offset: i32,
    t: Seq<char>,
    loc: int,
    i: int,
)
    requires
        regex_first_match(p, hay) == Some(t),
        find_first(hay, t) == Some(loc),
        location(hay, FinderView::LineRegex(p, offset)) matches Ok((Ok(j), _)) && j == i,
    ensures
        0 <= i < hay.len(),
        hay[i] == '\n',
        offset >= 0 ==> loc <= i && count_char(hay.subrange(loc, i), '\n') == offset,
        offset < 0 ==> i < loc && count_char(hay.subrange(i + 1, loc), '\n') == -offset,
{
    lemma_find_first_occurs(hay, t);
    if offset >= 0 {
        let h = hay.skip(loc);
        lemma_newline_positions_count(h);
        let nl = newline_positions(h);
        let j = nl[offset as int];
        assert(i == j + loc);
        assert(h[j] == hay[i]);
        assert(h.take(j) =~= hay.subrange(loc, i));
    } else {
        let h = hay.take(loc);
        lemma_newline_positions_count(h);
        let nl = newline_positions(h);
        let k = -offset;
        let j = nl[nl.len() - 1 - k];
        assert(i == j);
        assert(h[j] == hay[i]);
        let rest = hay.subrange(j + 1, loc);
        assert(h =~= h.take(j) + seq!['\n'] + rest);
        lemma_count_concat(h.take(j) + seq!['\n'], rest, '\n');
        lemma_count_concat(h.take(j), seq!['\n'], '\n');
        lemma_count_single('\n', '\n');
    }
}

/// A `Regex` finder lands on the first occurrence of the text `t` that its
/// pattern matched: at its start when `before` holds, just after its end
/// otherwise.
pub proof fn law_regex_location(hay: Seq<char>, p: Seq<char>, before: bool, t: Seq<char>, i: int)
    requires
        regex_first_match(p, hay) == Some(t),
        location(hay, FinderView::Regex(p, before)) matches Ok((Ok(j), _)) && j == i,
    ensures
        before ==> occurs_at(hay, t, i) && forall|k: int|
            0 <= k < i ==> !occurs_at(hay, t, k),
        !before ==> occurs_at(hay, t, i - t.len()) && forall|k: int|
            0 <= k < i - t.len() ==> !occurs_at(hay, t, k),
{
    lemma_find_first_occurs(hay, t);
}

// ---------------------------------------------------------------------------
// Where an insertion goes
// ---------------------------------------------------------------------------

/// The line that `previous_line` gives is the nearest non-empty line that
/// ends before the end of `prefix`: it follows a newline, holds none, and only
/// newlines stand after it.
proof fn lemma_previous_line_shape(prefix: Seq<char>)
    ensures
        previous_line(prefix) matches Some(line) ==> exists|a: int, b: int|
            1 <= a < b <= prefix.len() && prefix[a - 1] == '\n' && line == prefix.subrange(a, b)
                && (forall|k: int| a <= k < b ==> #[trigger] prefix[k] != '\n') && (forall|k: int|
                b <= k < prefix.len() ==> #[trigger] prefix[k] == '\n'),
    decreases prefix.len(),
{
    lemma_last_index_in_range(prefix, '\n');
    if let Some(k) = last_index_of(prefix, '\n') {
        let line = prefix.skip(k + 1);
        if line.len() > 0 {
            assert(line == prefix.subrange(k + 1, prefix.len() as int));
            assert(prefix[(k + 1) - 1] == '\n');
        } else {
            let q = prefix.take(k);
            lemma_previous_line_shape(q);
            if let Some(l) = previous_line(q) {
                let (a, b) = choose|a: int, b: int|
                    1 <= a < b <= q.len() && q[a - 1] == '\n' && l == q.subrange(a, b) && (forall|
                        j: int,
                    | a <= j < b ==> #[trigger] q[j] != '\n') && (forall|j: int|
                        b <= j < q.len() ==> #[trigger] q[j] == '\n');
                assert(prefix[a - 1] == q[a - 1]);
                assert(l == prefix.subrange(a, b));
                assert forall|j: int| a <= j < b implies #[trigger] prefix[j] != '\n' by {
                    assert(prefix[j] == q[j]);
                }
                assert forall|j: int| b <= j < prefix.len() implies #[trigger] prefix[j] == '\n' by {
                    if j < k {
                        assert(prefix[j] == q[j]);
                    }
                }
            }
        }
    }
}

/// `contents[a..b]` is the nearest non-empty line that ends before index
/// `end`: it follows a newline, holds none, and only newlines stand between
/// it and `end`.
pub open spec fn is_nearest_line_before(contents: Seq<char>, end: int, a: int, b: int) -> bool {
    &&& 1 <= a < b <= end <= contents.len()
    &&& contents[a - 1] == '\n'
    &&& forall|k: int| a <= k < b ==> #[trigger] contents[k] != '\n'
    &&& forall|k: int| b <= k < end ==> #[trigger] contents[k] == '\n'
}

/// `w` is the white space that starts `line`: a prefix of it, all white
/// space, followed by the end of the line or a character that is not.
pub open spec fn is_indentation_of(line: Seq<char>, w: Seq<char>) -> bool {
    &&& w.len() <= line.len()
    &&& w == line.take(w.len() as int)
    &&& forall|k: int| 0 <= k < w.len() ==> is_white_space(#[trigger] w[k])
    &&& w.len() == line.len() || !is_white_space(line[w.len() as int])
}

/// An insertion goes in at the marker's location made absolute, indented
/// like the nearest non-empty line before it. When the start finder gives
/// `s` in the contents and the marker finder gives `i` in the contents from
/// `s` on, with options `opts`, the new contents are the old ones with one
/// `case` line put in at index `s + i`: a newline, the white space that
/// starts the nearest non-empty line ending before `s + i` (the line from
/// index `a` to `b`, after a newline, with only newlines between it and
/// `s + i`), `case key = "raw"`, and a second newline exactly when the
/// options ask for one.
pub proof fn law_insert_at_marker(
    file: Seq<char>,
    start: FinderView,
    marker: FinderView,
    key: Seq<char>,
    raw: Seq<char>,
    contents: Seq<char>,
    s: int,
    i: int,
    opts: Seq<FinderOption>,
    r: Seq<char>,
)
    requires
        location(contents, start) matches Ok((Ok(x), _)) && x == s,
        location(contents.skip(s), marker) matches Ok((Ok(y), o)) && y == i && o == opts,
        executed(
            LineCommandView::Insert(file, start, marker, InsertCommandView::EnumCaseWithRaw(key, raw)),
            contents,
        ) matches Ok(out) && out == r,
    ensures
        0 <= s <= s + i <= contents.len(),
        exists|a: int, b: int, w: Seq<char>|
            #![trigger is_nearest_line_before(contents, s + i, a, b), is_indentation_of(contents.subrange(a, b), w)]
            is_nearest_line_before(contents, s + i, a, b) && is_indentation_of(
                contents.subrange(a, b),
                w,
            ) && r == contents.take(s + i) + ("\n"@ + w + "case "@ + key + " = \""@ + raw + "\""@
                + (if opts.contains(FinderOption::IfFallbackExtraNewline) {
                "\n"@
            } else {
                Seq::<char>::empty()
            })) + contents.skip(s + i),
{
    lemma_location_in_range(contents, start);
    lemma_location_in_range(contents.skip(s), marker);
    let prefix = contents.take(s + i);
    let line = previous_line(prefix)->Some_0;
    lemma_previous_line_shape(prefix);
    let (a, b) = choose|a: int, b: int|
        1 <= a < b <= prefix.len() && prefix[a - 1] == '\n' && line == prefix.subrange(a, b) && (
        forall|k: int| a <= k < b ==> #[trigger] prefix[k] != '\n') && (forall|k: int|
            b <= k < prefix.len() ==> #[trigger] prefix[k] == '\n');
    let w = indentation(line);
    lemma_leading_ws_props(line);
    assert forall|k: int| 0 <= k < w.len() implies is_white_space(#[trigger] w[k]) by {
        assert(w[k] == line[k]);
    }
    assert(line == contents.subrange(a, b));
    assert(contents[a - 1] == prefix[a - 1]);
    assert forall|k: int| a <= k < b implies #[trigger] contents[k] != '\n' by {
        assert(contents[k] == prefix[k]);
    }
    assert forall|k: int| b <= k < s + i implies #[trigger] contents[k] == '\n' by {
        assert(contents[k] == prefix[k]);
    }
    assert(is_nearest_line_before(contents, s + i, a, b));
    assert(is_indentation_of(line, w));
    let extra = if opts.contains(FinderOption::IfFallbackExtraNewline) {
        "\n"@
    } else {
        Seq::<char>::empty()
    };
    assert(r == contents.take(s + i) + ("\n"@ + w + "case "@ + key + " = \""@ + raw + "\""@ + extra)
        + contents.skip(s + i));
}

// ---------------------------------------------------------------------------
// Literal arguments and finder fields
// ---------------------------------------------------------------------------

/// An argument that holds no parenthesis and no `$`.
pub open spec fn is_literal_argument(arg: Seq<char>) -> bool {
    !has_char(arg, '(') && !has_char(arg, ')') && !has_char(arg, '$')
}

/// An argument with no parenthesis and no `$` is its own value, unchanged,
/// letter case included, whatever the definitions.
pub proof fn law_literal_argument(arg: Seq<char>, defs: Seq<DefinitionView>)
    requires
        is_literal_argument(arg),
    ensures
        command_arg(arg, defs) == Ok::<Seq<char>, ScriptErrorView>(arg),
{
}

/// `EnumCaseWithRaw(key, raw)`, its name in any letter case, with two
/// literal arguments, is read as that command with those two texts as they
/// stand.
pub proof fn law_literal_insert_command(
    s: Seq<char>,
    defs: Seq<DefinitionView>,
    idx: usize,
    parts: CommandView,
)
    requires
        command_parts(s) == Ok::<CommandView, ScriptErrorView>(parts),
        lowercase(parts.command) == "enumcasewithraw"@,
        parts.args.len() == 2,
        is_literal_argument(parts.args[0]),
        is_literal_argument(parts.args[1]),
    ensures
        insert_command_spec(s, defs, idx) == Ok::<InsertCommandView, ScriptErrorView>(
            InsertCommandView::EnumCaseWithRaw(parts.args[0], parts.args[1]),
        ),
{
    law_literal_argument(parts.args[0], defs);
    law_literal_argument(parts.args[1], defs);
}

/// A pattern between double quotes is read as the pattern.
proof fn lemma_unquote_quoted(p: Seq<char>)
    ensures
        crate::command_parser::unquote(seq!['"'] + p + seq!['"']) == Some(p),
{
    let q = seq!['"'] + p + seq!['"'];
    assert(q[0] == '"');
    assert(q.drop_first().last() == '"');
    assert(q.drop_first().drop_last() =~= p);
}

/// `regex("p", b)`: a finder whose name contains `regex` but not
/// `lineregex`, whose first argument is a pattern between double quotes and
/// whose second is `true` or `false`, is a `Regex` finder with that pattern
/// and that truth value; any other second argument is refused as not a
/// boolean.
pub proof fn law_regex_finder_fields(s: Seq<char>, idx: usize, parts: CommandView, p: Seq<char>)
    requires
        command_parts(s) == Ok::<CommandView, ScriptErrorView>(parts),
        contains(parts.command, "regex"@),
        !contains(parts.command, "lineregex"@),
        parts.args.len() >= 2,
    ensures
        parts.args[0] == seq!['"'] + p + seq!['"'] && (parts.args[1] == seq!['t', 'r', 'u', 'e']
            || parts.args[1] == seq!['f', 'a', 'l', 's', 'e']) ==> finder_spec(s, idx) == Ok::<
            FinderView,
            ScriptErrorView,
        >(FinderView::Regex(p, parts.args[1] == seq!['t', 'r', 'u', 'e'])),
        parts.args[1] != seq!['t', 'r', 'u', 'e'] && parts.args[1] != seq![
            'f',
            'a',
            'l',
            's',
            'e',
        ] ==> finder_spec(s, idx) == Err::<FinderView, ScriptErrorView>(
            ScriptErrorView::ExpectedBoolean(idx),
        ),
{
    lemma_unquote_quoted(p);
}

/// `lineRegex("p", n)`: a finder whose name contains `lineregex`, whose
/// first argument is a pattern between double quotes and whose second is
/// the decimal text of an `i32` `n`, is a `LineRegex` finder with that
/// pattern and offset `n`.
pub proof fn law_line_regex_finder_fields(
    s: Seq<char>,
    idx: usize,
    parts: CommandView,
    p: Seq<char>,
    n: i32,
)
    requires
        command_parts(s) == Ok::<CommandView, ScriptErrorView>(parts),
        contains(parts.command, "lineregex"@),
        parts.args.len() >= 2,
        parts.args[0] == seq!['"'] + p + seq!['"'],
        parts.args[1] == i32_text(n),
    ensures
        finder_spec(s, idx) == Ok::<FinderView, ScriptErrorView>(FinderView::LineRegex(p, n)),
{
    lemma_unquote_quoted(p);
    law_offset_text_round_trip(n);
}

// ---------------------------------------------------------------------------
// What the top-level split keeps
// ---------------------------------------------------------------------------

/// How many more `(` than `)` stand in `s`.
pub open spec fn paren_depth(s: Seq<char>) -> int {
    count_char(s, '(') - count_char(s, ')')
}

/// How many commas of `s` stand inside parentheses: after more `(` than
/// `)`.
pub open spec fn nested_commas(s: Seq<char>) -> nat
    decreases s.len(),
{
    if s.len() == 0 {
        0
    } else {
        nested_commas(s.drop_last()) + (if s.last() == ',' && paren_depth(s.drop_last()) > 0 {
            1nat
        } else {
            0nat
        })
    }
}

proof fn lemma_count_push(s: Seq<char>, x: char, c: char)
    ensures
        count_char(s.push(x), c) == count_char(s, c) + (if x == c {
            1nat
        } else {
            0nat
        }),
{
    assert(s.push(x).drop_last() =~= s);
}

/// Trimming removes white space only, so it keeps every other character.
proof fn lemma_count_trim(x: Seq<char>, c: char)
    requires
        !is_white_space(c),
    ensures
        count_char(trim(x), c) == count_char(x, c),
{
    lemma_leading_ws_props(x);
    let lead = leading_ws(x) as int;
    let t = x.skip(lead);
    lemma_trailing_ws_props(t);
    let m = t.len() - trailing_ws(t);
    let head = x.take(lead);
    let tail = t.skip(m);
    assert forall|k: int| 0 <= k < head.len() implies head[k] != c by {
        assert(is_white_space(x[k]));
    }
    assert forall|k: int| 0 <= k < tail.len() implies tail[k] != c by {
        assert(tail[k] == t[m + k]);
        assert(is_white_space(t[m + k]));
    }
    lemma_count_absent(head, c);
    lemma_count_absent(tail, c);
    assert(x =~= head + t);
    lemma_count_concat(head, t, c);
    assert(t =~= t.take(m) + tail);
    lemma_count_concat(t.take(m), tail, c);
}

/// The depth that the scan tracks is the number of `(` less the number of
/// `)` read so far.
proof fn lemma_scan_depth(s: Seq<char>)
    ensures
        comma_scan(s).2 == paren_depth(s),
    decreases s.len(),
{
    if s.len() > 0 {
        lemma_scan_depth(s.drop_last());
    }
}

/// What the pieces found so far and the characters gathered since hold of a
/// character `c` that is not white space: every `c` read so far, or, for
/// the comma, every comma read inside parentheses.
proof fn lemma_scan_keeps(s: Seq<char>, c: char)
    requires
        !is_white_space(c),
    ensures
        count_char(concat_all(comma_scan(s).0), c) + count_char(comma_scan(s).1, c) == (if c
            == ',' {
            nested_commas(s)
        } else {
            count_char(s, c)
        }),
    decreases s.len(),
{
    if s.len() == 0 {
        assert(concat_all(Seq::<Seq<char>>::empty()) =~= Seq::<char>::empty());
    } else {
        let t = s.drop_last();
        let x = s.last();
        lemma_scan_keeps(t, c);
        lemma_scan_depth(t);
        let (pieces, acc, d) = comma_scan(t);
        assert(comma_scan(s) == comma_step((pieces, acc, d), x));
        if x == ',' && d == 0 && acc.len() > 0 {
            let y = trim(acc);
            assert(pieces.push(y).drop_last() =~= pieces);
            assert(concat_all(pieces.push(y)) == concat_all(pieces) + y);
            lemma_count_concat(concat_all(pieces), y, c);
            lemma_count_trim(acc, c);
            assert(count_char(Seq::<char>::empty(), c) == 0);
        } else if x == ',' && d > 0 {
            lemma_count_push(acc, x, c);
        } else if x == ',' {
        } else {
            lemma_count_push(acc, x, c);
        }
    }
}

/// The top-level split loses no character but the top-level commas and the
/// white space trimmed off its pieces: the pieces, one after the other, hold
/// each character that is not white space and not a comma as often as the
/// text does, and hold exactly the commas that stand inside parentheses, at
/// any depth.
pub proof fn law_toplevel_pieces_keep_characters(s: Seq<char>, c: char)
    ensures
        toplevel_pieces(s) matches Some(p) ==> (c != ',' && !is_white_space(c) ==> count_char(
            concat_all(p),
            c,
        ) == count_char(s, c)),
        toplevel_pieces(s) matches Some(p) ==> count_char(concat_all(p), ',') == nested_commas(s),
{
    if let Some(p) = toplevel_pieces(s) {
        let (pieces, acc, d) = comma_scan(s);
        assert(!is_white_space(','));
        lemma_scan_keeps(s, ',');
        if !is_white_space(c) {
            lemma_scan_keeps(s, c);
        }
        if acc.len() > 0 {
            let y = trim(acc);
            assert(pieces.push(y).drop_last() =~= pieces);
            assert(concat_all(p) == concat_all(pieces) + y);
            lemma_count_concat(concat_all(pieces), y, ',');
            lemma_count_trim(acc, ',');
            if !is_white_space(c) {
                lemma_count_concat(concat_all(pieces), y, c);
                lemma_count_trim(acc, c);
            }
        } else {
            assert(count_char(acc, ',') == 0);
            assert(count_char(acc, c) == 0);
        }
    }
}

} // verus!
