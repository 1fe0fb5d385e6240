//! The engine's configuration format: `[Section]` headers over
//! `key = value` lines.  Re-entering a section name resets that
//! section; rewriting a key replaces its value.

use vstd::prelude::*;

use crate::errors::ParseError;
use crate::errors::ParseErrorView;
use crate::text::rfind_char;
use crate::text::spec_rfind;
use crate::text::spec_split;
use crate::text::spec_trim;
use crate::text::split_char;
use crate::text::str_eq;
use crate::text::trim_str;

verus! {

/// A parsed configuration: sections in first-seen order, each a
/// list of key–value pairs in first-seen order.  Lookups take the
/// first match; the parser's writes replace in place or append, so
/// parsed names occur once at either level.
#[derive(Debug)]
pub struct Config {
    pub fields: Vec<(String, Vec<(String, String)>)>,
}

/// The view of a section's pairs.
pub open spec fn kvs_view(kvs: Vec<(String, String)>) -> Seq<(Seq<char>, Seq<char>)> {
    Seq::new(kvs@.len(), |i: int| (kvs@[i].0@, kvs@[i].1@))
}

/// The view of the whole configuration.
pub open spec fn cfg_view(fields: Vec<(String, Vec<(String, String)>)>) -> Seq<
    (Seq<char>, Seq<(Seq<char>, Seq<char>)>),
> {
    Seq::new(fields@.len(), |i: int| (fields@[i].0@, kvs_view(fields@[i].1)))
}

/// The first section with the given name.
pub open spec fn spec_sec_get(
    fields: Seq<(Seq<char>, Seq<(Seq<char>, Seq<char>)>)>,
    name: Seq<char>,
) -> Option<Seq<(Seq<char>, Seq<char>)>>
    decreases fields.len(),
{
    if fields.len() == 0 {
        None
    } else if fields[0].0 == name {
        Some(fields[0].1)
    } else {
        spec_sec_get(fields.drop_first(), name)
    }
}

/// The configuration with the named section set to `sec`: replaced
/// in place, or appended when new.
pub open spec fn spec_sec_set(
    fields: Seq<(Seq<char>, Seq<(Seq<char>, Seq<char>)>)>,
    name: Seq<char>,
    sec: Seq<(Seq<char>, Seq<char>)>,
) -> Seq<(Seq<char>, Seq<(Seq<char>, Seq<char>)>)>
    decreases fields.len(),
{
    if fields.len() == 0 {
        seq![(name, sec)]
    } else if fields[0].0 == name {
        seq![(name, sec)] + fields.drop_first()
    } else {
        seq![fields[0]] + spec_sec_set(fields.drop_first(), name, sec)
    }
}

/// The section with the key set to `val`: replaced in place, or
/// appended when new.
pub open spec fn spec_kv_set(
    sec: Seq<(Seq<char>, Seq<char>)>,
    key: Seq<char>,
    val: Seq<char>,
) -> Seq<(Seq<char>, Seq<char>)>
    decreases sec.len(),
{
    if sec.len() == 0 {
        seq![(key, val)]
    } else if sec[0].0 == key {
        seq![(key, val)] + sec.drop_first()
    } else {
        seq![sec[0]] + spec_kv_set(sec.drop_first(), key, val)
    }
}

/// What one configuration line does to the sections parsed so far
/// and to the current section name: blank lines are skipped, a
/// `[name]` header opens (and resets) that section, and a
/// `key = value` line writes into the current section.  A value
/// line before any header is an error.
pub open spec fn spec_config_line(
    line: Seq<char>,
    name: Seq<char>,
    lineno: int,
    fields: Seq<(Seq<char>, Seq<(Seq<char>, Seq<char>)>)>,
    cur: Option<Seq<char>>,
) -> Result<(Seq<(Seq<char>, Seq<(Seq<char>, Seq<char>)>)>, Option<Seq<char>>), ParseErrorView> {
    if spec_trim(line).len() == 0 {
        Ok((fields, cur))
    } else if line[0] == '[' {
        match spec_rfind(line, ']') {
            None => Err(
                ParseErrorView::SyntaxError(name, lineno, line.len() as int, "Expected closing ]"@),
            ),
            Some(iend) => Ok(
                (
                    spec_sec_set(fields, line.subrange(1, iend), Seq::empty()),
                    Some(line.subrange(1, iend)),
                ),
            ),
        }
    } else {
        let parts = spec_split(line, '=');
        if parts.len() < 2 {
            Err(
                ParseErrorView::SyntaxError(
                    name,
                    lineno,
                    line.len() as int,
                    "Values must be separated by ="@,
                ),
            )
        } else {
            match cur {
                None => Err(
                    ParseErrorView::SyntaxError(
                        name,
                        lineno,
                        line.len() as int,
                        "Value outside of a section"@,
                    ),
                ),
                Some(c) => {
                    let sec = match spec_sec_get(fields, c) {
                        Some(s) => s,
                        None => Seq::empty(),
                    };
                    Ok(
                        (
                            spec_sec_set(
                                fields,
                                c,
                                spec_kv_set(sec, spec_trim(parts[0]), spec_trim(parts[1])),
                            ),
                            cur,
                        ),
                    )
                },
            }
        }
    }
}

/// What the lines from `i` on do, given the state parsed so far.
pub open spec fn spec_config_rest(
    lines: Seq<Seq<char>>,
    i: int,
    name: Seq<char>,
    fields: Seq<(Seq<char>, Seq<(Seq<char>, Seq<char>)>)>,
    cur: Option<Seq<char>>,
) -> Result<Seq<(Seq<char>, Seq<(Seq<char>, Seq<char>)>)>, ParseErrorView>
    decreases lines.len() - i,
{
    if i < 0 || i >= lines.len() {
        Ok(fields)
    } else {
        match spec_config_line(lines[i], name, i + 1, fields, cur) {
            Err(e) => Err(e),
            Ok((fields2, cur2)) => spec_config_rest(lines, i + 1, name, fields2, cur2),
        }
    }
}

/// What parsing a whole configuration source yields.
pub open spec fn spec_parse_config(source: Seq<char>, name: Seq<char>) -> Result<
    Seq<(Seq<char>, Seq<(Seq<char>, Seq<char>)>)>,
    ParseErrorView,
> {
    spec_config_rest(
        spec_split(source, '\n'),
        0,
        name,
        Seq::<(Seq<char>, Seq<(Seq<char>, Seq<char>)>)>::empty(),
        None,
    )
}

/// Index of the first section with the given name.
fn find_section(fields: &Vec<(String, Vec<(String, String)>)>, name: &str) -> (r: Option<usize>)
    ensures
        match r {
            Some(j) => 0 <= j < fields@.len() && fields@[j as int].0@ == name@ && (forall|jj: int|
                0 <= jj < j ==> fields@[jj].0@ != name@),
            None => forall|jj: int| 0 <= jj < fields@.len() ==> fields@[jj].0@ != name@,
        },
{
    let n = fields.len();
    let mut i: usize = 0;
    while i < n
        invariant
            n == fields@.len(),
            0 <= i <= n,
            forall|jj: int| 0 <= jj < i ==> fields@[jj].0@ != name@,
        decreases n - i,
    {
        if str_eq(fields[i].0.as_str(), name) {
            return Some(i);
        }
        i = i + 1;
    }
    None
}

/// Replacement at the first matching index is what `spec_sec_set`
/// does; appending is what it does when nothing matches.
proof fn lemma_sec_set_at(
    fields: Seq<(Seq<char>, Seq<(Seq<char>, Seq<char>)>)>,
    name: Seq<char>,
    sec: Seq<(Seq<char>, Seq<char>)>,
    j: int,
)
    requires
        0 <= j < fields.len(),
        fields[j].0 == name,
        forall|jj: int| 0 <= jj < j ==> fields[jj].0 != name,
    ensures
        spec_sec_set(fields, name, sec) =~= fields.update(j, (name, sec)),
    decreases j,
{
    if j == 0 {
    } else {
        let t = fields.drop_first();
        assert forall|i: int| 0 <= i < t.len() implies t[i] == fields[i + 1] by {}
        lemma_sec_set_at(t, name, sec, j - 1);
        assert(spec_sec_set(fields, name, sec) =~= seq![fields[0]] + spec_sec_set(t, name, sec));
    }
}

proof fn lemma_sec_set_none(
    fields: Seq<(Seq<char>, Seq<(Seq<char>, Seq<char>)>)>,
    name: Seq<char>,
    sec: Seq<(Seq<char>, Seq<char>)>,
)
    requires
        forall|jj: int| 0 <= jj < fields.len() ==> fields[jj].0 != name,
    ensures
        spec_sec_set(fields, name, sec) =~= fields.push((name, sec)),
    decreases fields.len(),
{
    if fields.len() > 0 {
        let t = fields.drop_first();
        assert forall|i: int| 0 <= i < t.len() implies t[i] == fields[i + 1] by {}
        lemma_sec_set_none(t, name, sec);
        assert(spec_sec_set(fields, name, sec) =~= seq![fields[0]] + spec_sec_set(t, name, sec));
    }
}

proof fn lemma_sec_get_at(
    fields: Seq<(Seq<char>, Seq<(Seq<char>, Seq<char>)>)>,
    name: Seq<char>,
    j: int,
)
    requires
        0 <= j < fields.len(),
        fields[j].0 == name,
        forall|jj: int| 0 <= jj < j ==> fields[jj].0 != name,
    ensures
        spec_sec_get(fields, name) == Some(fields[j].1),
    decreases j,
{
    if j > 0 {
        let t = fields.drop_first();
        assert forall|i: int| 0 <= i < t.len() implies t[i] == fields[i + 1] by {}
        lemma_sec_get_at(t, name, j - 1);
    }
}

proof fn lemma_kv_set_at(
    sec: Seq<(Seq<char>, Seq<char>)>,
    key: Seq<char>,
    val: Seq<char>,
    j: int,
)
    requires
        0 <= j < sec.len(),
        sec[j].0 == key,
        forall|jj: int| 0 <= jj < j ==> sec[jj].0 != key,
    ensures
        spec_kv_set(sec, key, val) =~= sec.update(j, (key, val)),
    decreases j,
{
    if j > 0 {
        let t = sec.drop_first();
        assert forall|i: int| 0 <= i < t.len() implies t[i] == sec[i + 1] by {}
        lemma_kv_set_at(t, key, val, j - 1);
        assert(spec_kv_set(sec, key, val) =~= seq![sec[0]] + spec_kv_set(t, key, val));
    }
}

proof fn lemma_kv_set_none(sec: Seq<(Seq<char>, Seq<char>)>, key: Seq<char>, val: Seq<char>)
    requires
        forall|jj: int| 0 <= jj < sec.len() ==> sec[jj].0 != key,
    ensures
        spec_kv_set(sec, key, val) =~= sec.push((key, val)),
    decreases sec.len(),
{
    if sec.len() > 0 {
        let t = sec.drop_first();
        assert forall|i: int| 0 <= i < t.len() implies t[i] == sec[i + 1] by {}
        lemma_kv_set_none(t, key, val);
        assert(spec_kv_set(sec, key, val) =~= seq![sec[0]] + spec_kv_set(t, key, val));
    }
}

/// Writes `key = val` into the section named `cur`, creating the
/// section if it is somehow absent.
fn write_kv(
    fields: &mut Vec<(String, Vec<(String, String)>)>,
    cur: &String,
    key: String,
    val: String,
)
    ensures
        cfg_view(*final(fields)) =~= spec_sec_set(
            cfg_view(*old(fields)),
            cur@,
            spec_kv_set(
                match spec_sec_get(cfg_view(*old(fields)), cur@) {
                    Some(s) => s,
                    None => Seq::<(Seq<char>, Seq<char>)>::empty(),
                },
                key@,
                val@,
            ),
        ),
{
    let ghost prevv = cfg_view(*fields);
    let ghost prevf = fields@;
    proof {
        assert forall|i: int| 0 <= i < prevv.len() implies prevv[i].0 == fields@[i].0@ by {}
    }
    match find_section(fields, cur.as_str()) {
        Some(j) => {
            proof {
                lemma_sec_get_at(prevv, cur@, j as int);
            }
            let (sname, mut sec) = fields.remove(j);
            let ghost secv = kvs_view(sec);
            proof {
                assert(prevv[j as int] == (prevf[j as int].0@, kvs_view(prevf[j as int].1)));
                assert(sec == prevf[j as int].1);
                assert(secv == prevv[j as int].1);
                assert(spec_sec_get(prevv, cur@) == Some(secv));
            }
            let ghost prevsec = sec@;
            match find_kv(&sec, key.as_str()) {
                Some(k) => {
                    proof {
                        lemma_kv_set_at(secv, key@, val@, k as int);
                    }
                    sec.remove(k);
                    sec.insert(k, (key, val));
                    proof {
                        assert(sec@ =~= prevsec.update(k as int, (key, val)));
                        assert(kvs_view(sec) =~= spec_kv_set(secv, key@, val@));
                    }
                },
                None => {
                    proof {
                        lemma_kv_set_none(secv, key@, val@);
                    }
                    sec.push((key, val));
                    proof {
                        assert(kvs_view(sec) =~= spec_kv_set(secv, key@, val@));
                    }
                },
            }
            let np = (sname, sec);
            proof {
                lemma_sec_set_at(prevv, cur@, spec_kv_set(secv, key@, val@), j as int);
            }
            fields.insert(j, np);
            proof {
                assert(fields@ =~= prevf.update(j as int, np));
                assert forall|q: int|
                    0 <= q < fields@.len() implies cfg_view(*fields)[q] == prevv.update(
                    j as int,
                    (cur@, spec_kv_set(secv, key@, val@)),
                )[q] by {
                    assert(cfg_view(*fields)[q] == (fields@[q].0@, kvs_view(fields@[q].1)));
                    if q != j {
                        assert(fields@[q] == prevf[q]);
                        assert(prevv[q] == (prevf[q].0@, kvs_view(prevf[q].1)));
                    } else {
                        assert(fields@[q] == np);
                        assert(kvs_view(np.1) =~= spec_kv_set(secv, key@, val@));
                    }
                }
                assert(cfg_view(*fields) =~= prevv.update(
                    j as int,
                    (cur@, spec_kv_set(secv, key@, val@)),
                ));
            }
        },
        None => {
            proof {
                lemma_sec_get_none(prevv, cur@);
                lemma_kv_set_none(Seq::<(Seq<char>, Seq<char>)>::empty(), key@, val@);
                lemma_sec_set_none(
                    prevv,
                    cur@,
                    spec_kv_set(Seq::<(Seq<char>, Seq<char>)>::empty(), key@, val@),
                );
            }
            let mut sec: Vec<(String, String)> = Vec::new();
            sec.push((key, val));
            let ghost secview = kvs_view(sec);
            fields.push((cur.clone(), sec));
            proof {
                assert(secview =~= spec_kv_set(Seq::<(Seq<char>, Seq<char>)>::empty(), key@, val@));
                assert forall|q: int|
                    0 <= q < fields@.len() implies cfg_view(*fields)[q] == prevv.push(
                    (cur@, secview),
                )[q] by {
                    assert(cfg_view(*fields)[q] == (fields@[q].0@, kvs_view(fields@[q].1)));
                    if q < prevf.len() {
                        assert(fields@[q] == prevf[q]);
                        assert(prevv[q] == (prevf[q].0@, kvs_view(prevf[q].1)));
                    }
                }
                assert(cfg_view(*fields) =~= prevv.push((cur@, secview)));
            }
        },
    }
}

/// Index of the first pair with the given key.
fn find_kv(sec: &Vec<(String, String)>, key: &str) -> (r: Option<usize>)
    ensures
        match r {
            Some(j) => 0 <= j < sec@.len() && sec@[j as int].0@ == key@ && (forall|jj: int|
                0 <= jj < j ==> sec@[jj].0@ != key@),
            None => forall|jj: int| 0 <= jj < sec@.len() ==> sec@[jj].0@ != key@,
        },
{
    let n = sec.len();
    let mut i: usize = 0;
    while i < n
        invariant
            n == sec@.len(),
            0 <= i <= n,
            forall|jj: int| 0 <= jj < i ==> sec@[jj].0@ != key@,
        decreases n - i,
    {
        if str_eq(sec[i].0.as_str(), key) {
            return Some(i);
        }
        i = i + 1;
    }
    None
}

impl Config {
    /// Parses a configuration source named `name`, line by line, as
    /// `spec_parse_config` states.
    pub fn from_source(source: &str, name: &str) -> (r: Result<Config, ParseError>)
        ensures
            r is Ok <==> spec_parse_config(source@, name@) is Ok,
            r is Ok ==> cfg_view(r->Ok_0.fields) == spec_parse_config(source@, name@)->Ok_0,
            r is Err ==> r->Err_0@ == spec_parse_config(source@, name@)->Err_0,
    {
        let lines = split_char(source, '\n');
        let nl = lines.len();
        let mut fields: Vec<(String, Vec<(String, String)>)> = Vec::new();
        let mut cur: Option<String> = None;
        let mut i: usize = 0;
        proof {
            assert(cfg_view(fields) =~= Seq::<(Seq<char>, Seq<(Seq<char>, Seq<char>)>)>::empty());
        }
        while i < nl
            invariant
                nl == lines@.len(),
                lines.deep_view() == spec_split(source@, '\n'),
                0 <= i <= nl,
                spec_config_rest(
                    lines.deep_view(),
                    0,
                    name@,
                    Seq::<(Seq<char>, Seq<(Seq<char>, Seq<char>)>)>::empty(),
                    None,
                ) == spec_config_rest(
                    lines.deep_view(),
                    i as int,
                    name@,
                    cfg_view(fields),
                    match cur {
                        Some(c) => Some(c@),
                        None => None,
                    },
                ),
            decreases nl - i,
        {
            proof {
                assert(lines.deep_view()[i as int] == lines@[i as int]@);
            }
            let line = lines[i].as_str();
            let n: usize = line.unicode_len();
            let trimmed_len = trim_str(line).unicode_len();
            if trimmed_len == 0 {
            } else if line.get_char(0) == '[' {
                match rfind_char(line, ']') {
                    None => {
                        return Err(
                            ParseError::SyntaxError(
                                name.to_owned(),
                                i + 1,
                                n,
                                ("Expected closing ]").to_owned(),
                            ),
                        );
                    },
                    Some(iend) => {
                        proof {
                            crate::text::lemma_spec_rfind(line@, ']');
                        }
                        let sname = line.substring_char(1, iend).to_owned();
                        let ghost prevv = cfg_view(fields);
                        let ghost prevf = fields@;
                        match find_section(&fields, sname.as_str()) {
                            Some(j) => {
                                proof {
                                    assert forall|q: int|
                                        0 <= q < prevv.len() implies prevv[q].0
                                        == fields@[q].0@ by {}
                                    lemma_sec_set_at(
                                        prevv,
                                        sname@,
                                        Seq::<(Seq<char>, Seq<char>)>::empty(),
                                        j as int,
                                    );
                                }
                                fields.remove(j);
                                let fresh: Vec<(String, String)> = Vec::new();
                                fields.insert(j, (sname.clone(), fresh));
                                proof {
                                    assert(fields@ =~= prevf.update(
                                        j as int,
                                        fields@[j as int],
                                    ));
                                    assert forall|q: int|
                                        0 <= q < fields@.len() implies cfg_view(fields)[q]
                                        == prevv.update(
                                        j as int,
                                        (sname@, Seq::<(Seq<char>, Seq<char>)>::empty()),
                                    )[q] by {
                                        assert(cfg_view(fields)[q] == (
                                            fields@[q].0@,
                                            kvs_view(fields@[q].1),
                                        ));
                                        if q != j {
                                            assert(fields@[q] == prevf[q]);
                                            assert(prevv[q] == (
                                                prevf[q].0@,
                                                kvs_view(prevf[q].1),
                                            ));
                                        } else {
                                            assert(kvs_view(fields@[q].1) =~= Seq::<
                                                (Seq<char>, Seq<char>),
                                            >::empty());
                                        }
                                    }
                                    assert(cfg_view(fields) =~= prevv.update(
                                        j as int,
                                        (sname@, Seq::<(Seq<char>, Seq<char>)>::empty()),
                                    ));
                                }
                            },
                            None => {
                                proof {
                                    assert forall|q: int|
                                        0 <= q < prevv.len() implies prevv[q].0
                                        == fields@[q].0@ by {}
                                    lemma_sec_set_none(
                                        prevv,
                                        sname@,
                                        Seq::<(Seq<char>, Seq<char>)>::empty(),
                                    );
                                }
                                let fresh: Vec<(String, String)> = Vec::new();
                                fields.push((sname.clone(), fresh));
                                proof {
                                    assert forall|q: int|
                                        0 <= q < fields@.len() implies cfg_view(fields)[q]
                                        == prevv.push(
                                        (sname@, Seq::<(Seq<char>, Seq<char>)>::empty()),
                                    )[q] by {
                                        assert(cfg_view(fields)[q] == (
                                            fields@[q].0@,
                                            kvs_view(fields@[q].1),
                                        ));
                                        if q < prevf.len() {
                                            assert(fields@[q] == prevf[q]);
                                            assert(prevv[q] == (
                                                prevf[q].0@,
                                                kvs_view(prevf[q].1),
                                            ));
                                        } else {
                                            assert(kvs_view(fields@[q].1) =~= Seq::<
                                                (Seq<char>, Seq<char>),
                                            >::empty());
                                        }
                                    }
                                    assert(cfg_view(fields) =~= prevv.push(
                                        (sname@, Seq::<(Seq<char>, Seq<char>)>::empty()),
                                    ));
                                }
                            },
                        }
                        cur = Some(sname);
                    },
                }
            } else {
                let parts = split_char(line, '=');
                if parts.len() < 2 {
                    return Err(
                        ParseError::SyntaxError(
                            name.to_owned(),
                            i + 1,
                            n,
                            ("Values must be separated by =").to_owned(),
                        ),
                    );
                }
                proof {
                    assert(parts.deep_view()[0] == parts@[0]@);
                    assert(parts.deep_view()[1] == parts@[1]@);
                }
                match &cur {
                    None => {
                        return Err(
                            ParseError::SyntaxError(
                                name.to_owned(),
                                i + 1,
                                n,
                                ("Value outside of a section").to_owned(),
                            ),
                        );
                    },
                    Some(c) => {
                        let key = trim_str(parts[0].as_str()).to_owned();
                        let val = trim_str(parts[1].as_str()).to_owned();
                        write_kv(&mut fields, c, key, val);
                    },
                }
            }
            i = i + 1;
        }
        Ok(Config { fields })
    }

    /// The first section with the given name.
    pub fn get_section(&self, name: &str) -> (r: Option<&Vec<(String, String)>>)
        ensures
            match r {
                Some(s) => spec_sec_get(cfg_view(self.fields), name@) == Some(kvs_view(*s)),
                None => spec_sec_get(cfg_view(self.fields), name@) is None,
            },
    {
        proof {
            assert forall|q: int|
                0 <= q < cfg_view(self.fields).len() implies cfg_view(self.fields)[q].0
                == self.fields@[q].0@ by {}
        }
        match find_section(&self.fields, name) {
            Some(j) => {
                proof {
                    lemma_sec_get_at(cfg_view(self.fields), name@, j as int);
                }
                let e = &self.fields[j];
                Some(&e.1)
            },
            None => {
                proof {
                    lemma_sec_get_none(cfg_view(self.fields), name@);
                }
                None
            },
        }
    }

    /// The value under `key` in the section named `section`.
    pub fn get_value(&self, section: &str, key: &str) -> (r: Option<&String>)
        ensures
            match r {
                Some(v) => match spec_sec_get(cfg_view(self.fields), section@) {
                    Some(s) => spec_kv_get(s, key@) == Some(v@),
                    None => false,
                },
                None => match spec_sec_get(cfg_view(self.fields), section@) {
                    Some(s) => spec_kv_get(s, key@) is None,
                    None => true,
                },
            },
    {
        match self.get_section(section) {
            Some(sec) => {
                proof {
                    assert forall|q: int|
                        0 <= q < kvs_view(*sec).len() implies kvs_view(*sec)[q].0
                        == sec@[q].0@ by {}
                }
                match find_kv(sec, key) {
                    Some(j) => {
                        proof {
                            lemma_kv_get_at(kvs_view(*sec), key@, j as int);
                        }
                        let e = &sec[j];
                        Some(&e.1)
                    },
                    None => {
                        proof {
                            lemma_kv_get_none(kvs_view(*sec), key@);
                        }
                        None
                    },
                }
            },
            None => None,
        }
    }
}

/// The first value under a key.
pub open spec fn spec_kv_get(sec: Seq<(Seq<char>, Seq<char>)>, key: Seq<char>) -> Option<
    Seq<char>,
>
    decreases sec.len(),
{
    if sec.len() == 0 {
        None
    } else if sec[0].0 == key {
        Some(sec[0].1)
    } else {
        spec_kv_get(sec.drop_first(), key)
    }
}

proof fn lemma_sec_get_none(fields: Seq<(Seq<char>, Seq<(Seq<char>, Seq<char>)>)>, name: Seq<char>)
    requires
        forall|jj: int| 0 <= jj < fields.len() ==> fields[jj].0 != name,
    ensures
        spec_sec_get(fields, name) is None,
    decreases fields.len(),
{
    if fields.len() > 0 {
        let t = fields.drop_first();
        assert forall|i: int| 0 <= i < t.len() implies t[i] == fields[i + 1] by {}
        lemma_sec_get_none(t, name);
    }
}

proof fn lemma_kv_get_at(sec: Seq<(Seq<char>, Seq<char>)>, key: Seq<char>, j: int)
    requires
        0 <= j < sec.len(),
        sec[j].0 == key,
        forall|jj: int| 0 <= jj < j ==> sec[jj].0 != key,
    ensures
        spec_kv_get(sec, key) == Some(sec[j].1),
    decreases j,
{
    if j > 0 {
        let t = sec.drop_first();
        assert forall|i: int| 0 <= i < t.len() implies t[i] == sec[i + 1] by {}
        lemma_kv_get_at(t, key, j - 1);
    }
}

proof fn lemma_kv_get_none(sec: Seq<(Seq<char>, Seq<char>)>, key: Seq<char>)
    requires
        forall|jj: int| 0 <= jj < sec.len() ==> sec[jj].0 != key,
    ensures
        spec_kv_get(sec, key) is None,
    decreases sec.len(),
{
    if sec.len() > 0 {
        let t = sec.drop_first();
        assert forall|i: int| 0 <= i < t.len() implies t[i] == sec[i + 1] by {}
        lemma_kv_get_none(t, key);
    }
}

} // verus!
