use vstd::prelude::*;
use crate::object::push_text;

verus! {

/// A shell command: its name, its description and its entry point.
pub struct ShSyscall {
    pub name: String,
    pub desc: String,
    pub func: usize,
}

/// The command entry for the function `func_name` at `func`: named `name`
/// where one is given, else by the function's own name; described by `desc`
/// where one is given, else as the name followed by " cmd".
pub fn sh_command(func_name: &str, name: Option<&str>, desc: Option<&str>, func: usize) -> (c: ShSyscall)
    ensures
        c.name@ == (match name {
            Some(n) => n@,
            None => func_name@,
        }),
        c.desc@ == (match desc {
            Some(d) => d@,
            None => c.name@ + " cmd"@,
        }),
        c.func == func,
{
    let cmd: String = match name {
        Some(n) => n.to_owned(),
        None => func_name.to_owned(),
    };
    let text: String = match desc {
        Some(d) => d.to_owned(),
        None => {
            let mut t: String = cmd.clone();
            push_text(&mut t, " cmd");
            t
        },
    };
    ShSyscall { name: cmd, desc: text, func }
}

/// The index of the first command of `table` named `cmd`.
pub fn sh_get_cmd(table: &Vec<ShSyscall>, cmd: &str) -> (r: Option<usize>)
    ensures
        r matches Some(i) ==> i < table@.len() && table@[i as int].name@ == cmd@ && forall|k: int|
            0 <= k < i ==> (#[trigger] table@[k]).name@ != cmd@,
        r is None ==> forall|k: int| 0 <= k < table@.len() ==> (#[trigger] table@[k]).name@ != cmd@,
{
    let wanted: String = cmd.to_owned();
    let mut i: usize = 0;
    while i < table.len()
        invariant
            i <= table@.len(),
            wanted@ == cmd@,
            forall|k: int| 0 <= k < i ==> (#[trigger] table@[k]).name@ != cmd@,
        decreases table@.len() - i,
    {
        if table[i].name == wanted {
            return Some(i);
        }
        i = i + 1;
    }
    None
}

} // verus!
