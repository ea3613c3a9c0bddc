//! Text with named gaps. A template holds markers of the form
//! `#[[var=name]]`, which stand for the value of a variable, and markers
//! of the form `#[[import=file]]`, which stand for the text of another
//! template.

use vstd::prelude::*;
use crate::pattern::{captures, group, group_of, regex_captures, strings_view};
use crate::text::{chars_of, joined, replace, replaced, str_eq, string_of};

verus! {

/// What a template holds, as plain values.
#[verifier::ext_equal]
pub struct TemplateData {
    /// The file that the template was read from.
    pub file: Seq<char>,
    /// The text as it was read.
    pub data: Seq<char>,
    /// The variables with their values, in the order in which they were
    /// first met.
    pub variables: Seq<(Seq<char>, Seq<char>)>,
    /// The templates that this one imports: the file of each, and its text
    /// with its own imports put in.
    pub imports: Seq<(Seq<char>, Seq<char>)>,
}

/// The template without text, variables or imports.
pub open spec fn blank() -> TemplateData {
    TemplateData {
        file: Seq::empty(),
        data: Seq::empty(),
        variables: Seq::empty(),
        imports: Seq::empty(),
    }
}

/// Why a template could not do what it was asked.
#[derive(PartialEq, Eq, Structural, Clone, Copy, Debug)]
pub enum TemplateError {
    /// The template has no variable of that name.
    UnknownVariable,
}

/// The marker that stands for a variable.
pub open spec fn var_marker(name: Seq<char>) -> Seq<char> {
    "#[[var="@ + name + "]]"@
}

/// The marker that stands for an imported template.
pub open spec fn import_marker(file: Seq<char>) -> Seq<char> {
    "#[[import="@ + file + "]]"@
}

/// The text with the markers of the imports replaced by the texts of the
/// imports, one import after the other.
pub open spec fn with_imports(text: Seq<char>, imports: Seq<(Seq<char>, Seq<char>)>) -> Seq<char>
    decreases imports.len(),
{
    if imports.len() == 0 {
        text
    } else {
        replaced(
            with_imports(text, imports.drop_last()),
            import_marker(imports.last().0),
            imports.last().1,
        )
    }
}

/// The text with the markers of the variables replaced by their values,
/// one variable after the other.
pub open spec fn with_variables(text: Seq<char>, variables: Seq<(Seq<char>, Seq<char>)>) -> Seq<
    char,
>
    decreases variables.len(),
{
    if variables.len() == 0 {
        text
    } else {
        replaced(
            with_variables(text, variables.drop_last()),
            var_marker(variables.last().0),
            variables.last().1,
        )
    }
}

/// Where a name stands first among the variables, or their number where
/// it does not stand among them.
pub open spec fn index_of(variables: Seq<(Seq<char>, Seq<char>)>, name: Seq<char>) -> int
    decreases variables.len(),
{
    if variables.len() == 0 {
        0
    } else if variables.first().0 == name {
        0
    } else {
        1 + index_of(variables.drop_first(), name)
    }
}

/// Whether a variable of that name is among the variables.
pub open spec fn declared(variables: Seq<(Seq<char>, Seq<char>)>, name: Seq<char>) -> bool {
    index_of(variables, name) < variables.len()
}

/// The variables with the value of one of them set: a variable that is
/// there gets the value, one that is not is added behind the others.
pub open spec fn assigned(
    variables: Seq<(Seq<char>, Seq<char>)>,
    name: Seq<char>,
    value: Seq<char>,
) -> Seq<(Seq<char>, Seq<char>)> {
    let at = index_of(variables, name);
    if at < variables.len() {
        variables.update(at, (name, value))
    } else {
        variables.push((name, value))
    }
}

/// The template after a variable was given a value: a template that has
/// no variable of that name stays as it is.
pub open spec fn with_value(template: TemplateData, name: Seq<char>, value: Seq<char>) -> TemplateData {
    if declared(template.variables, name) {
        TemplateData { variables: assigned(template.variables, name, value), ..template }
    } else {
        template
    }
}

/// The variables with every one of `more` set to its value, one after the
/// other.
pub open spec fn assigned_all(
    variables: Seq<(Seq<char>, Seq<char>)>,
    more: Seq<(Seq<char>, Seq<char>)>,
) -> Seq<(Seq<char>, Seq<char>)>
    decreases more.len(),
{
    if more.len() == 0 {
        variables
    } else {
        assigned(assigned_all(variables, more.drop_last()), more.last().0, more.last().1)
    }
}

/// The variables with every name of `names` that is not among them added
/// with an empty value, and every one that is among them emptied.
pub open spec fn emptied_all(variables: Seq<(Seq<char>, Seq<char>)>, names: Seq<Seq<char>>) -> Seq<
    (Seq<char>, Seq<char>),
>
    decreases names.len(),
{
    if names.len() == 0 {
        variables
    } else {
        assigned(emptied_all(variables, names.drop_last()), names.last(), Seq::empty())
    }
}

/// The name of a variable is the place of the first variable of that name.
pub proof fn lemma_index_of(variables: Seq<(Seq<char>, Seq<char>)>, name: Seq<char>)
    ensures
        0 <= index_of(variables, name) <= variables.len(),
        declared(variables, name) ==> variables[index_of(variables, name)].0 == name,
        forall|i: int| 0 <= i < index_of(variables, name) ==> (#[trigger] variables[i]).0 != name,
    decreases variables.len(),
{
    if variables.len() > 0 && variables.first().0 != name {
        let rest = variables.drop_first();
        lemma_index_of(rest, name);
        assert forall|i: int| 0 <= i < index_of(variables, name) implies (#[trigger] variables[i]).0
            != name by {
            if i > 0 {
                assert(rest[i - 1] == variables[i]);
            }
        }
    }
}

/// The regular expression that finds the markers of variables; its first
/// group is the name of the variable.
pub const VARIABLE_PATTERN: &'static str = "#\\[\\[var=([a-z0-9_-]+)\\]\\]";

/// The regular expression that finds the markers of imports; its first
/// group is the file of the import.
pub const IMPORT_PATTERN: &'static str = "#\\[\\[import=([a-zA-Z0-9\\.-_/\\\\]+)\\]\\]";

/// The names of the variables that the markers in a text name, in the
/// order of the markers.
pub open spec fn variables_in(data: Seq<char>) -> Seq<Seq<char>> {
    group_of(regex_captures(VARIABLE_PATTERN@, data), 1)
}

/// The files that the markers in a text import, in the order of the
/// markers.
pub open spec fn imports_in(data: Seq<char>) -> Seq<Seq<char>> {
    group_of(regex_captures(IMPORT_PATTERN@, data), 1)
}

/// What a template keeps of the templates it imports: of each its file,
/// and its text with its own imports put in.
pub open spec fn imported(imports: Seq<Template>) -> Seq<(Seq<char>, Seq<char>)> {
    Seq::new(
        imports.len(),
        |i: int| (imports[i]@.file, with_imports(imports[i]@.data, imports[i]@.imports)),
    )
}

/// The variables after the variables of every import were taken over, one
/// import after the other: a variable that was there gets the value it has
/// in the import.
pub open spec fn adopted(variables: Seq<(Seq<char>, Seq<char>)>, imports: Seq<Template>) -> Seq<
    (Seq<char>, Seq<char>),
>
    decreases imports.len(),
{
    if imports.len() == 0 {
        variables
    } else {
        assigned_all(adopted(variables, imports.drop_last()), imports.last()@.variables)
    }
}

/// The plain values of a row of pairs of strings.
pub open spec fn pairs_view(pairs: Seq<(String, String)>) -> Seq<(Seq<char>, Seq<char>)> {
    Seq::new(pairs.len(), |i: int| (pairs[i].0@, pairs[i].1@))
}

/// A template: a text, the variables that its markers name, and the
/// templates that it imports.
pub struct Template {
    file: String,
    data: String,
    variables: Vec<(String, String)>,
    imports: Vec<(String, String)>,
}

impl View for Template {
    type V = TemplateData;

    closed spec fn view(&self) -> TemplateData {
        TemplateData {
            file: self.file@,
            data: self.data@,
            variables: pairs_view(self.variables@),
            imports: pairs_view(self.imports@),
        }
    }
}

/// The text that a template stands for: its text with the imports put
/// in, and then the values of the variables.
pub open spec fn compiled(template: TemplateData) -> Seq<char> {
    with_variables(with_imports(template.data, template.imports), template.variables)
}

impl Default for Template {
    fn default() -> (template: Template)
        ensures
            template@ == blank(),
    {
        let template = Template {
            file: String::new(),
            data: String::new(),
            variables: Vec::new(),
            imports: Vec::new(),
        };
        proof {
            assert(template@ =~= blank());
        }
        template
    }
}

/// The marker for a name: what stands before it, the name, and what
/// stands behind it.
fn marker(before: &str, name: &str) -> (text: Vec<char>)
    ensures
        text@ == before@ + name@ + "]]"@,
{
    let front = joined(&chars_of(before), &chars_of(name));
    joined(&front, &chars_of("]]"))
}

/// Where a name stands first among the variables.
fn index(variables: &Vec<(String, String)>, name: &str) -> (found: Option<usize>)
    ensures
        match found {
            Some(at) => at < variables@.len() && at == index_of(pairs_view(variables@), name@),
            None => index_of(pairs_view(variables@), name@) == variables@.len(),
        },
{
    let ghost all = pairs_view(variables@);
    let mut i: usize = 0;
    while i < variables.len()
        invariant
            i <= variables@.len(),
            all == pairs_view(variables@),
            forall|k: int| 0 <= k < i ==> (#[trigger] all[k]).0 != name@,
        decreases variables@.len() - i,
    {
        if str_eq(variables[i].0.as_str(), name) {
            proof {
                lemma_index_of(all, name@);
                let found = index_of(all, name@);
                if found < i {
                    assert(all[found].0 == name@);
                } else if found > i {
                    assert(all[i as int].0 != name@);
                }
            }
            return Some(i);
        }
        i += 1;
    }
    proof {
        lemma_index_of(all, name@);
        if declared(all, name@) {
            assert(all[index_of(all, name@)].0 == name@);
        }
    }
    None
}

/// Sets a variable, adding it where it is not there.
fn assign(variables: &mut Vec<(String, String)>, name: &str, value: &str)
    ensures
        pairs_view(final(variables)@) == assigned(pairs_view(old(variables)@), name@, value@),
{
    match index(variables, name) {
        Some(at) => {
            variables.remove(at);
            variables.insert(at, (String::from_str(name), String::from_str(value)));
            proof {
                assert(pairs_view(variables@) =~= assigned(pairs_view(old(variables)@), name@, value@));
            }
        },
        None => {
            variables.push((String::from_str(name), String::from_str(value)));
            proof {
                assert(pairs_view(variables@) =~= assigned(pairs_view(old(variables)@), name@, value@));
            }
        },
    }
}

impl Template {
    /// The template with the given text, read from the given file, that
    /// imports the given templates. Its variables are the ones that the
    /// markers in its text name, each with an empty value, and behind them
    /// the variables of the imports.
    pub fn new(file: &str, data: &str, imports: Vec<Template>) -> (template: Template)
        ensures
            template@.file == file@,
            template@.data == data@,
            template@.imports == imported(imports@),
            template@.variables == adopted(
                emptied_all(Seq::empty(), variables_in(data@)),
                imports@,
            ),
    {
        let mut template = Template {
            file: String::from_str(file),
            data: String::from_str(data),
            variables: Vec::new(),
            imports: Vec::new(),
        };
        let mut i: usize = 0;
        while i < imports.len()
            invariant
                i <= imports@.len(),
                template.file@ == file@,
                template.data@ == data@,
                template.variables@.len() == 0,
                template.imports@.len() == i,
                pairs_view(template.imports@) == imported(imports@).take(i as int),
            decreases imports@.len() - i,
        {
            let text = string_of(&imports[i].put_imports());
            let ghost before = template.imports@;
            template.imports.push((imports[i].file.clone(), text));
            proof {
                let target = imported(imports@).take(i + 1);
                assert forall|k: int| 0 <= k < i + 1 implies pairs_view(template.imports@)[k]
                    == target[k] by {
                    if k < i {
                        assert(template.imports@[k] == before[k]);
                        assert(pairs_view(before)[k] == imported(imports@).take(i as int)[k]);
                    }
                }
                assert(pairs_view(template.imports@) =~= target);
            }
            i += 1;
        }
        proof {
            assert(imported(imports@).take(imports@.len() as int) =~= imported(imports@));
            assert(pairs_view(template.variables@) =~= Seq::empty());
        }
        template.aquire_variables();
        let ghost own = pairs_view(template.variables@);
        let mut k: usize = 0;
        while k < imports.len()
            invariant
                k <= imports@.len(),
                template.file@ == file@,
                template.data@ == data@,
                pairs_view(template.imports@) == imported(imports@),
                pairs_view(template.variables@) == adopted(own, imports@.take(k as int)),
            decreases imports@.len() - k,
        {
            proof {
                assert(imports@.take(k + 1).drop_last() =~= imports@.take(k as int));
                assert(imports@.take(k + 1).last() == imports@[k as int]);
            }
            template.adopt(&imports[k]);
            k += 1;
        }
        proof {
            assert(imports@.take(imports@.len() as int) =~= imports@);
        }
        template
    }

    /// The files that a text imports, in the order of its markers.
    pub fn import_paths(data: &str) -> (paths: Vec<String>)
        ensures
            strings_view(paths@) == imports_in(data@),
    {
        let found = captures(IMPORT_PATTERN, data);
        group(&found, 1)
    }

    /// Adds the variables that the markers in the text name, each with an
    /// empty value.
    fn aquire_variables(&mut self)
        ensures
            final(self)@ == (TemplateData {
                variables: emptied_all(old(self)@.variables, variables_in(old(self)@.data)),
                ..old(self)@
            }),
    {
        let found = captures(VARIABLE_PATTERN, self.data.as_str());
        let names = group(&found, 1);
        self.declare(&names);
    }

    /// Adds the variables of the given names, each with an empty value.
    pub fn declare(&mut self, names: &Vec<String>)
        ensures
            final(self)@ == (TemplateData {
                variables: emptied_all(old(self)@.variables, strings_view(names@)),
                ..old(self)@
            }),
    {
        let ghost all = strings_view(names@);
        let mut i: usize = 0;
        while i < names.len()
            invariant
                i <= names@.len(),
                all == strings_view(names@),
                self.file == old(self).file,
                self.data == old(self).data,
                self.imports == old(self).imports,
                pairs_view(self.variables@) == emptied_all(old(self)@.variables, all.take(i as int)),
            decreases names@.len() - i,
        {
            proof {
                assert(all.take(i + 1).drop_last() =~= all.take(i as int));
                assert(all.take(i + 1).last() == names@[i as int]@);
            }
            assign(&mut self.variables, names[i].as_str(), "");
            proof {
                reveal_strlit("");
                assert(""@ =~= Seq::<char>::empty());
            }
            i += 1;
        }
        proof {
            assert(all.take(names@.len() as int) =~= all);
        }
    }

    /// Takes over the variables of a template that this one imports.
    fn adopt(&mut self, import: &Template)
        ensures
            final(self)@ == (TemplateData {
                variables: assigned_all(old(self)@.variables, import@.variables),
                ..old(self)@
            }),
    {
        let ghost all = pairs_view(import.variables@);
        let mut i: usize = 0;
        while i < import.variables.len()
            invariant
                i <= import.variables@.len(),
                all == pairs_view(import.variables@),
                self.file == old(self).file,
                self.data == old(self).data,
                self.imports == old(self).imports,
                pairs_view(self.variables@) == assigned_all(old(self)@.variables, all.take(i as int)),
            decreases import.variables@.len() - i,
        {
            proof {
                assert(all.take(i + 1).drop_last() =~= all.take(i as int));
                assert(all.take(i + 1).last() == all[i as int]);
            }
            assign(
                &mut self.variables,
                import.variables[i].0.as_str(),
                import.variables[i].1.as_str(),
            );
            i += 1;
        }
        proof {
            assert(all.take(import.variables@.len() as int) =~= all);
        }
    }

    /// Whether the template has a variable of that name.
    pub fn var_exist(&self, var: &str) -> (found: bool)
        ensures
            found == declared(self@.variables, var@),
    {
        index(&self.variables, var).is_some()
    }

    /// Gives a variable its value. A variable that the template does not
    /// have is refused, and the template stays as it is.
    pub fn set_var(&mut self, var: &str, value: &str) -> (done: Result<(), TemplateError>)
        ensures
            final(self)@ == with_value(old(self)@, var@, value@),
            match done {
                Ok(_) => declared(old(self)@.variables, var@),
                Err(e) => !declared(old(self)@.variables, var@) && e == TemplateError::UnknownVariable,
            },
    {
        match index(&self.variables, var) {
            Some(_) => {
                assign(&mut self.variables, var, value);
                Ok(())
            },
            None => Err(TemplateError::UnknownVariable),
        }
    }

    /// The text that the template stands for: its own text, with the
    /// marker of every import replaced by the text of the import, and
    /// then the marker of every variable by the value of the variable.
    pub fn compile(&self) -> (text: Result<String, TemplateError>)
        ensures
            text is Ok,
            text->Ok_0@ == compiled(self@),
    {
        let mut tpl = self.put_imports();
        let ghost all = pairs_view(self.variables@);
        let mut i: usize = 0;
        while i < self.variables.len()
            invariant
                i <= self.variables@.len(),
                all == pairs_view(self.variables@),
                tpl@ == with_variables(with_imports(self@.data, self@.imports), all.take(i as int)),
            decreases self.variables@.len() - i,
        {
            proof {
                assert(all.take(i + 1).drop_last() =~= all.take(i as int));
                assert(all.take(i + 1).last() == all[i as int]);
            }
            let pattern = marker("#[[var=", self.variables[i].0.as_str());
            tpl = replace(&tpl, &pattern, &chars_of(self.variables[i].1.as_str()));
            i += 1;
        }
        proof {
            assert(all.take(self.variables@.len() as int) =~= all);
        }
        Ok(string_of(&tpl))
    }

    /// The text of the template with the imports put in and the markers
    /// of the variables left as they are.
    pub fn _compile(&self) -> (text: Result<String, TemplateError>)
        ensures
            text is Ok,
            text->Ok_0@ == with_imports(self@.data, self@.imports),
    {
        Ok(string_of(&self.put_imports()))
    }

    fn put_imports(&self) -> (text: Vec<char>)
        ensures
            text@ == with_imports(self@.data, self@.imports),
    {
        let mut tpl = chars_of(self.data.as_str());
        let ghost all = pairs_view(self.imports@);
        let mut i: usize = 0;
        while i < self.imports.len()
            invariant
                i <= self.imports@.len(),
                all == pairs_view(self.imports@),
                tpl@ == with_imports(self.data@, all.take(i as int)),
            decreases self.imports@.len() - i,
        {
            proof {
                assert(all.take(i + 1).drop_last() =~= all.take(i as int));
                assert(all.take(i + 1).last() == all[i as int]);
            }
            let pattern = marker("#[[import=", self.imports[i].0.as_str());
            tpl = replace(&tpl, &pattern, &chars_of(self.imports[i].1.as_str()));
            i += 1;
        }
        proof {
            assert(all.take(self.imports@.len() as int) =~= all);
        }
        tpl
    }
}

} // verus!
