//! Skills: Markdown files with a YAML frontmatter, kept in a registry by
//! name.
//!
//! Reading the files and parsing the YAML is done by the caller; the
//! library splits a file into its frontmatter and body, builds skills and
//! keeps the registry.

use vstd::prelude::*;
use crate::text::{
    chars_of, contains_string, find, owned, slice_vec, starts_with, starts_with_seq, str_views,
    string_of, trim, trim_seq, first_match,
};

verus! {

/// A loaded skill.
#[derive(Debug, Clone)]
pub struct Skill {
    pub name: String,
    pub description: String,
    pub version: String,
    pub tools: Vec<String>,
    pub instructions: String,
    pub file_path: String,
}

/// The YAML header of a skill file.
#[derive(Debug, Clone)]
pub struct SkillFrontmatter {
    pub name: String,
    pub description: String,
    pub version: String,
    pub tools: Vec<String>,
}

/// The version of a skill whose frontmatter names none.
pub fn default_version() -> (v: String)
    ensures
        v@ == "1.0.0"@,
{
    owned("1.0.0")
}

impl Skill {
    /// A skill from its frontmatter, its instructions and its file path.
    pub fn from_parts(frontmatter: SkillFrontmatter, instructions: String, file_path: String) -> (s:
        Skill)
        ensures
            s.name@ == frontmatter.name@,
            s.description@ == frontmatter.description@,
            s.version@ == frontmatter.version@,
            s.tools@ == frontmatter.tools@,
            s.instructions@ == instructions@,
            s.file_path@ == file_path@,
    {
        Skill {
            name: frontmatter.name,
            description: frontmatter.description,
            version: frontmatter.version,
            tools: frontmatter.tools,
            instructions,
            file_path,
        }
    }
}

/// How a skill file splits: the trimmed text must start with `---`; the
/// frontmatter runs from there to the first `"\n---"`, and the body (trimmed)
/// follows that marker.
pub open spec fn split_spec(content: Seq<char>) -> Result<(Seq<char>, Seq<char>), Seq<char>> {
    let t = trim_seq(content);
    if !starts_with_seq(t, "---"@) {
        Err("Thiếu YAML frontmatter (---)"@)
    } else {
        let rest = t.skip(3);
        match first_match(rest, "\n---"@) {
            Some(end) => Ok((rest.take(end), trim_seq(rest.skip(end + 4)))),
            None => Err("Thiếu tag đóng ---"@),
        }
    }
}

/// Splits a skill file into its YAML frontmatter and its trimmed body.
pub fn split_frontmatter(content: &str) -> (r: Result<(String, String), String>)
    ensures
        match (r, split_spec(content@)) {
            (Ok((y, b)), Ok((ys, bs))) => y@ == ys && b@ == bs,
            (Err(e), Err(es)) => e@ == es,
            _ => false,
        },
{
    proof {
        reveal_strlit("---");
        reveal_strlit("\n---");
    }
    let c = chars_of(content);
    let t = trim(c.as_slice());
    let marker = chars_of("---");
    if !starts_with(t.as_slice(), marker.as_slice()) {
        return Err(owned("Thiếu YAML frontmatter (---)"));
    }
    let rest = slice_vec(t.as_slice(), 3, t.len());
    assert(rest@ =~= t@.skip(3));
    let close = chars_of("\n---");
    match find(rest.as_slice(), close.as_slice()) {
        Some(end) => {
            let yaml = slice_vec(rest.as_slice(), 0, end);
            assert(yaml@ =~= rest@.take(end as int));
            let after = slice_vec(rest.as_slice(), end + 4, rest.len());
            assert(after@ =~= rest@.skip(end + 4));
            let body = trim(after.as_slice());
            Ok((string_of(yaml.as_slice()), string_of(body.as_slice())))
        },
        None => Err(owned("Thiếu tag đóng ---")),
    }
}

/// The skills, each name once.
pub struct SkillRegistry {
    skills: Vec<Skill>,
}

/// The names of a sequence of skills.
pub open spec fn skill_names(s: Seq<Skill>) -> Seq<Seq<char>> {
    s.map_values(|k: Skill| k.name@)
}

impl SkillRegistry {
    /// The registered skills.
    pub closed spec fn skills(&self) -> Seq<Skill> {
        self.skills@
    }

    /// No two skills share a name.
    pub open spec fn wf(&self) -> bool {
        skill_names(self.skills()).no_duplicates()
    }

    /// The skill registered under `name`.
    pub open spec fn lookup(&self, name: Seq<char>) -> Option<Skill> {
        lookup_in(self.skills(), name)
    }

    /// An empty registry.
    pub fn new() -> (r: Self)
        ensures
            r.wf(),
            r.skills().len() == 0,
    {
        let r = SkillRegistry { skills: Vec::new() };
        assert(skill_names(r.skills()) =~= Seq::<Seq<char>>::empty());
        r
    }

    fn index_of(&self, name: &String) -> (r: Option<usize>)
        ensures
            match r {
                Some(i) => i < self.skills().len() && self.skills()[i as int].name@ == name@,
                None => forall|i: int|
                    0 <= i < self.skills().len() ==> self.skills()[i].name@ != name@,
            },
    {
        let mut i: usize = 0;
        while i < self.skills.len()
            invariant
                i <= self.skills.len(),
                forall|j: int| 0 <= j < i ==> self.skills@[j].name@ != name@,
            decreases self.skills.len() - i,
        {
            if self.skills[i].name == *name {
                return Some(i);
            }
            i += 1;
        }
        None
    }

    proof fn lemma_lookup_at(&self, i: int)
        requires
            self.wf(),
            0 <= i < self.skills().len(),
        ensures
            self.lookup(self.skills()[i].name@) == Some(self.skills()[i]),
    {
        lemma_lookup_in_at(self.skills(), i);
    }

    /// Adds a skill; one with the same name is replaced in place.
    pub fn register(&mut self, skill: Skill)
        requires
            old(self).wf(),
        ensures
            final(self).wf(),
            final(self).lookup(skill.name@) == Some(skill),
            forall|n: Seq<char>|
                n != skill.name@ ==> #[trigger] final(self).lookup(n) == old(self).lookup(n),
            final(self).skills().len() == old(self).skills().len() + if old(self).lookup(
                skill.name@,
            ) is Some {
                0int
            } else {
                1int
            },
    {
        let ghost before = self.skills@;
        let ghost sname = skill.name@;
        match self.index_of(&skill.name) {
            Some(i) => {
                self.skills.set(i, skill);
                proof {
                    assert(skill_names(self.skills@) =~= skill_names(before));
                    self.lemma_lookup_at(i as int);
                    assert(named_at(before, sname, i as int));
                    assert forall|n: Seq<char>| n != sname implies #[trigger] self.lookup(n)
                        == lookup_in(before, n) by {
                        if exists|k: int| named_at(before, n, k) {
                            let k = choose|k: int| named_at(before, n, k);
                            assert(k != i);
                            assert(self.skills@[k] == before[k]);
                            self.lemma_lookup_at(k);
                            lemma_lookup_in_at(before, k);
                        } else {
                            assert forall|k: int| 0 <= k < self.skills@.len() implies !named_at(self.skills@, n, k) by {
                                if k != i {
                                    assert(self.skills@[k] == before[k]);
                                    assert(!named_at(before, n, k));
                                }
                            }
                        }
                    }
                }
            },
            None => {
                self.skills.push(skill);
                proof {
                    assert(skill_names(self.skills@) =~= skill_names(before).push(sname));
                    self.lemma_lookup_at(before.len() as int);
                    assert forall|n: Seq<char>| n != sname implies #[trigger] self.lookup(n)
                        == lookup_in(before, n) by {
                        if exists|k: int| named_at(before, n, k) {
                            let k = choose|k: int| named_at(before, n, k);
                            assert(self.skills@[k] == before[k]);
                            self.lemma_lookup_at(k);
                            lemma_lookup_in_at(before, k);
                        } else {
                            assert forall|k: int| 0 <= k < self.skills@.len() implies !named_at(self.skills@, n, k) by {
                                if k < before.len() {
                                    assert(self.skills@[k] == before[k]);
                                    assert(!named_at(before, n, k));
                                }
                            }
                        }
                    }
                }
            },
        }
    }

    /// The skill registered under `name`.
    pub fn get(&self, name: &str) -> (r: Option<&Skill>)
        requires
            self.wf(),
        ensures
            match r {
                Some(s) => self.lookup(name@) == Some(*s),
                None => self.lookup(name@) is None,
            },
    {
        let key = owned(name);
        match self.index_of(&key) {
            Some(i) => {
                proof {
                    self.lemma_lookup_at(i as int);
                }
                Some(&self.skills[i])
            },
            None => None,
        }
    }

    /// Every registered skill.
    pub fn list(&self) -> (r: Vec<&Skill>)
        ensures
            r@.len() == self.skills().len(),
            forall|i: int| 0 <= i < r@.len() ==> *r@[i] == self.skills()[i],
    {
        let mut r: Vec<&Skill> = Vec::new();
        let mut i: usize = 0;
        while i < self.skills.len()
            invariant
                i <= self.skills.len(),
                r@.len() == i,
                forall|j: int| 0 <= j < i ==> *r@[j] == self.skills@[j],
            decreases self.skills.len() - i,
        {
            r.push(&self.skills[i]);
            i += 1;
        }
        r
    }

    /// The skills that list `tool_name` among their tools, in registry
    /// order.
    pub fn find_by_tool(&self, tool_name: &str) -> (r: Vec<&Skill>)
        ensures
            r@.len() == uses_tool(self.skills(), tool_name@).len(),
            forall|i: int| 0 <= i < r@.len() ==> *r@[i] == uses_tool(self.skills(), tool_name@)[i],
    {
        let key = owned(tool_name);
        let mut r: Vec<&Skill> = Vec::new();
        let mut i: usize = 0;
        while i < self.skills.len()
            invariant
                i <= self.skills.len(),
                key@ == tool_name@,
                r@.len() == uses_tool(self.skills@.take(i as int), tool_name@).len(),
                forall|j: int|
                    0 <= j < r@.len() ==> *r@[j] == uses_tool(self.skills@.take(i as int), tool_name@)[j],
            decreases self.skills.len() - i,
        {
            proof {
                reveal(Seq::filter);
                let t = self.skills@.take(i + 1);
                assert(t.drop_last() =~= self.skills@.take(i as int));
                assert(t.last() == self.skills@[i as int]);
            }
            if contains_string(&self.skills[i].tools, &key) {
                r.push(&self.skills[i]);
            }
            i += 1;
        }
        assert(self.skills@.take(self.skills@.len() as int) =~= self.skills@);
        r
    }

    /// Number of registered skills.
    pub fn count(&self) -> (n: usize)
        ensures
            n == self.skills().len(),
    {
        self.skills.len()
    }
}

/// The skills that list `tool` among their tools, in order.
pub open spec fn uses_tool(skills: Seq<Skill>, tool: Seq<char>) -> Seq<Skill> {
    skills.filter(|s: Skill| str_views(s.tools@).contains(tool))
}

/// The skill at `i` is named `name`.
pub open spec fn named_at(skills: Seq<Skill>, name: Seq<char>, i: int) -> bool {
    0 <= i < skills.len() && skills[i].name@ == name
}

/// `lookup` on a plain sequence of skills.
pub open spec fn lookup_in(skills: Seq<Skill>, name: Seq<char>) -> Option<Skill> {
    if exists|i: int| named_at(skills, name, i) {
        Some(skills[choose|i: int| named_at(skills, name, i)])
    } else {
        None
    }
}

proof fn lemma_lookup_in_at(skills: Seq<Skill>, i: int)
    requires
        skill_names(skills).no_duplicates(),
        0 <= i < skills.len(),
    ensures
        lookup_in(skills, skills[i].name@) == Some(skills[i]),
{
    let name = skills[i].name@;
    assert(named_at(skills, name, i));
    let c = choose|c: int| named_at(skills, name, c);
    let ns = skill_names(skills);
    assert(ns[c] == skills[c].name@);
    assert(ns[i] == skills[i].name@);
    if c != i {
        assert(ns[c] != ns[i]);
    }
}

} // verus!
