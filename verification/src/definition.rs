//! What the definition calls its parameters.

use vstd::prelude::*;
use vstd::string::*;

use crate::ids::ParamId;

verus! {

/// The words of one parameter.
#[derive(Debug)]
pub struct ParameterText {
    /// The qualified name.
    pub name: String,
    /// The engineering units, as the definition lists them.
    pub units: Vec<String>,
}

/// The words of a definition's parameters, by their place in it.
#[derive(Debug)]
pub struct Definition {
    pub parameters: Vec<ParameterText>,
}

/// Words with a space between each and the next.
pub open spec fn spaced(words: Seq<String>) -> Seq<char>
    decreases words.len(),
{
    if words.len() == 0 {
        Seq::empty()
    } else if words.len() == 1 {
        words[0]@
    } else {
        spaced(words.drop_last()) + " "@ + words.last()@
    }
}

impl Definition {
    /// The qualified name of a parameter.
    pub open spec fn name_of(&self, parameter: ParamId) -> Option<Seq<char>> {
        if parameter.number < self.parameters@.len() {
            Some(self.parameters@[parameter.number as int].name@)
        } else {
            None
        }
    }

    /// The engineering units of a parameter: nothing where none are declared.
    pub open spec fn unit_of(&self, parameter: ParamId) -> Seq<char> {
        if parameter.number < self.parameters@.len() {
            spaced(self.parameters@[parameter.number as int].units@)
        } else {
            Seq::empty()
        }
    }

    /// The qualified name of a parameter, as the definition spells it.
    pub fn qualified_name(&self, parameter: ParamId) -> (r: Option<&str>)
        ensures
            r is Some <==> self.name_of(parameter) is Some,
            r matches Some(name) ==> self.name_of(parameter) == Some(name@),
    {
        let index: usize = parameter.index();
        if index < self.parameters.len() {
            Some(self.parameters[index].name.as_str())
        } else {
            None
        }
    }

    /// The engineering units of a parameter, joined with a space.
    pub fn unit(&self, parameter: ParamId) -> (r: String)
        ensures
            r@ == self.unit_of(parameter),
    {
        let index: usize = parameter.index();
        let mut out: String = String::new();
        if index >= self.parameters.len() {
            return out;
        }
        let units: &Vec<String> = &self.parameters[index].units;
        let mut done: usize = 0;
        assert(out@ =~= spaced(units@.take(0)));
        while done < units.len()
            invariant
                done <= units@.len(),
                out@ == spaced(units@.take(done as int)),
            decreases units@.len() - done,
        {
            if done > 0 {
                out.append(" ");
            }
            out.append(units[done].as_str());
            proof {
                let next = units@.take(done + 1);
                assert(next.drop_last() =~= units@.take(done as int));
                assert(out@ =~= spaced(next));
            }
            done = done + 1;
        }
        assert(units@.take(done as int) =~= units@);
        out
    }
}

} // verus!
