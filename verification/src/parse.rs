//! A flat configuration reader: `[header]` lines open fields, and
//! every later line is a whitespace-stripped `key=value` pair
//! appended to the most recent field.  Unlike the engine
//! configuration, nothing is deduplicated: fields and pairs keep
//! every occurrence in order.

use vstd::prelude::*;

use crate::errors::ParseError;
use crate::errors::ParseErrorView;
use crate::text::rfind_char;
use crate::text::spec_rfind;
use crate::text::spec_split;
use crate::text::spec_strip_spaces;
use crate::text::split_char;
use crate::text::strip_spaces;

verus! {

/// One `[header]` block and the pairs under it.
#[derive(Debug)]
pub struct Field {
    pub header: Option<String>,
    pub values: Vec<(String, String)>,
}

/// A parsed flat configuration.
#[derive(Debug)]
pub struct Config {
    pub fields: Vec<Field>,
}

/// The view of one field.
pub open spec fn field_view(f: Field) -> (Option<Seq<char>>, Seq<(Seq<char>, Seq<char>)>) {
    (
        match f.header {
            Some(h) => Some(h@),
            None => None,
        },
        Seq::new(f.values@.len(), |i: int| (f.values@[i].0@, f.values@[i].1@)),
    )
}

/// The view of the whole configuration.
pub open spec fn fields_view(fields: Vec<Field>) -> Seq<
    (Option<Seq<char>>, Seq<(Seq<char>, Seq<char>)>),
> {
    Seq::new(fields@.len(), |i: int| field_view(fields@[i]))
}

/// What one line does to the fields parsed so far: empty lines are
/// skipped, a `[header]` line opens a new field, and every other
/// line is stripped of whitespace and split at its first `=` into a
/// pair appended to the last field.  A line without `=`, or a pair
/// before any header, is an error.
pub open spec fn spec_flat_line(
    line: Seq<char>,
    name: Seq<char>,
    lineno: int,
    acc: Seq<(Option<Seq<char>>, Seq<(Seq<char>, Seq<char>)>)>,
) -> Result<Seq<(Option<Seq<char>>, Seq<(Seq<char>, Seq<char>)>)>, ParseErrorView> {
    if line.len() == 0 {
        Ok(acc)
    } else if line[0] == '[' {
        match spec_rfind(line, ']') {
            None => Err(
                ParseErrorView::SyntaxError(
                    name,
                    lineno,
                    line.len() as int,
                    "Cannot find matching end ]"@,
                ),
            ),
            Some(iend) => Ok(
                acc.push((Some(line.subrange(1, iend)), Seq::<(Seq<char>, Seq<char>)>::empty())),
            ),
        }
    } else {
        let parts = spec_split(spec_strip_spaces(line), '=');
        if parts.len() < 2 {
            Err(
                ParseErrorView::SyntaxError(
                    name,
                    lineno,
                    line.len() as int,
                    "Values must be separated by ="@,
                ),
            )
        } else if acc.len() == 0 {
            Err(
                ParseErrorView::SyntaxError(
                    name,
                    lineno,
                    line.len() as int,
                    "Value outside of a section"@,
                ),
            )
        } else {
            Ok(
                acc.update(
                    acc.len() - 1,
                    (acc.last().0, acc.last().1.push((parts[0], parts[1]))),
                ),
            )
        }
    }
}

/// What the lines from `i` on do.
pub open spec fn spec_flat_rest(
    lines: Seq<Seq<char>>,
    i: int,
    name: Seq<char>,
    acc: Seq<(Option<Seq<char>>, Seq<(Seq<char>, Seq<char>)>)>,
) -> Result<Seq<(Option<Seq<char>>, Seq<(Seq<char>, Seq<char>)>)>, ParseErrorView>
    decreases lines.len() - i,
{
    if i < 0 || i >= lines.len() {
        Ok(acc)
    } else {
        match spec_flat_line(lines[i], name, i + 1, acc) {
            Err(e) => Err(e),
            Ok(acc2) => spec_flat_rest(lines, i + 1, name, acc2),
        }
    }
}

/// What parsing a whole flat configuration yields.
pub open spec fn spec_parse_flat(source: Seq<char>, name: Seq<char>) -> Result<
    Seq<(Option<Seq<char>>, Seq<(Seq<char>, Seq<char>)>)>,
    ParseErrorView,
> {
    spec_flat_rest(
        spec_split(source, '\n'),
        0,
        name,
        Seq::<(Option<Seq<char>>, Seq<(Seq<char>, Seq<char>)>)>::empty(),
    )
}

impl Config {
    /// Parses a flat configuration source named `name`, line by
    /// line, as `spec_parse_flat` states.
    pub fn from_source(source: &str, name: &str) -> (r: Result<Config, ParseError>)
        ensures
            r is Ok <==> spec_parse_flat(source@, name@) is Ok,
            r is Ok ==> fields_view(r->Ok_0.fields) == spec_parse_flat(source@, name@)->Ok_0,
            r is Err ==> r->Err_0@ == spec_parse_flat(source@, name@)->Err_0,
    {
        let lines = split_char(source, '\n');
        let nl = lines.len();
        let mut fields: Vec<Field> = Vec::new();
        let mut i: usize = 0;
        proof {
            assert(fields_view(fields) =~= Seq::<
                (Option<Seq<char>>, Seq<(Seq<char>, Seq<char>)>),
            >::empty());
        }
        while i < nl
            invariant
                nl == lines@.len(),
                lines.deep_view() == spec_split(source@, '\n'),
                0 <= i <= nl,
                spec_flat_rest(
                    lines.deep_view(),
                    0,
                    name@,
                    Seq::<(Option<Seq<char>>, Seq<(Seq<char>, Seq<char>)>)>::empty(),
                ) == spec_flat_rest(lines.deep_view(), i as int, name@, fields_view(fields)),
            decreases nl - i,
        {
            proof {
                assert(lines.deep_view()[i as int] == lines@[i as int]@);
            }
            let line = lines[i].as_str();
            let n: usize = line.unicode_len();
            if n == 0 {
            } else if line.get_char(0) == '[' {
                match rfind_char(line, ']') {
                    None => {
                        return Err(
                            ParseError::SyntaxError(
                                name.to_owned(),
                                i + 1,
                                n,
                                ("Cannot find matching end ]").to_owned(),
                            ),
                        );
                    },
                    Some(iend) => {
                        proof {
                            crate::text::lemma_spec_rfind(line@, ']');
                        }
                        let ghost prevv = fields_view(fields);
                        let ghost prevf = fields@;
                        let header = line.substring_char(1, iend).to_owned();
                        let fresh: Vec<(String, String)> = Vec::new();
                        fields.push(Field { header: Some(header), values: fresh });
                        proof {
                            assert forall|q: int|
                                0 <= q < fields@.len() implies fields_view(fields)[q]
                                == prevv.push(
                                (
                                    Some(line@.subrange(1, iend as int)),
                                    Seq::<(Seq<char>, Seq<char>)>::empty(),
                                ),
                            )[q] by {
                                assert(fields_view(fields)[q] == field_view(fields@[q]));
                                if q < prevf.len() {
                                    assert(fields@[q] == prevf[q]);
                                    assert(prevv[q] == field_view(prevf[q]));
                                } else {
                                    assert(field_view(fields@[q]).1 =~= Seq::<
                                        (Seq<char>, Seq<char>),
                                    >::empty());
                                }
                            }
                            assert(fields_view(fields) =~= prevv.push(
                                (
                                    Some(line@.subrange(1, iend as int)),
                                    Seq::<(Seq<char>, Seq<char>)>::empty(),
                                ),
                            ));
                        }
                    },
                }
            } else {
                let stripped = strip_spaces(line);
                let parts = split_char(stripped.as_str(), '=');
                if parts.len() < 2 {
                    return Err(
                        ParseError::SyntaxError(
                            name.to_owned(),
                            i + 1,
                            n,
                            ("Values must be separated by =").to_owned(),
                        ),
                    );
                }
                if fields.len() == 0 {
                    return Err(
                        ParseError::SyntaxError(
                            name.to_owned(),
                            i + 1,
                            n,
                            ("Value outside of a section").to_owned(),
                        ),
                    );
                }
                proof {
                    assert(parts.deep_view()[0] == parts@[0]@);
                    assert(parts.deep_view()[1] == parts@[1]@);
                }
                let ghost prevv = fields_view(fields);
                let ghost prevf = fields@;
                let key = parts[0].clone();
                let val = parts[1].clone();
                let li = fields.len() - 1;
                let mut last = fields.pop().unwrap();
                let ghost lastv = field_view(last);
                let ghost prevvals = last.values@;
                last.values.push((key, val));
                proof {
                    assert forall|q: int|
                        0 <= q < field_view(last).1.len() implies field_view(last).1[q]
                        == lastv.1.push((parts@[0]@, parts@[1]@))[q] by {
                        if q < prevvals.len() {
                            assert(last.values@[q] == prevvals[q]);
                        } else {
                            assert(last.values@[q] == (parts@[0], parts@[1]));
                        }
                    }
                    assert(field_view(last).1 =~= lastv.1.push((parts@[0]@, parts@[1]@)));
                }
                fields.push(last);
                proof {
                    assert forall|q: int|
                        0 <= q < fields@.len() implies fields_view(fields)[q] == prevv.update(
                        li as int,
                        (prevv.last().0, prevv.last().1.push((parts@[0]@, parts@[1]@))),
                    )[q] by {
                        assert(fields_view(fields)[q] == field_view(fields@[q]));
                        if q < li {
                            assert(fields@[q] == prevf[q]);
                            assert(prevv[q] == field_view(prevf[q]));
                        } else {
                            assert(prevv[q] == field_view(prevf[q]));
                        }
                    }
                    assert(fields_view(fields) =~= prevv.update(
                        li as int,
                        (prevv.last().0, prevv.last().1.push((parts@[0]@, parts@[1]@))),
                    ));
                }
            }
            i = i + 1;
        }
        Ok(Config { fields })
    }
}

} // verus!
