# jvm_code_gen

A verified code generator for the Java virtual machine. It takes a checked syntax tree of a small
object-oriented language and gives one class for each class of the program: its constructor, its
fields, and its methods with their instructions.

- `src/` is the generator, with its contracts and proofs for Verus.
  - `ast`, `instr`: what goes in and what comes out.
  - `types`, `scheme`, `program`: the code of every type, expression, statement, method and class,
    as mathematics. `valid`: the trees that have code.
  - `jvm_code_gen`, `expr`, `stmt`, `class`: the generator. `JvmCodeGen::gen` gives exactly the
    classes that `program` lays down.
  - `check`: `JvmCodeGen::try_gen`, which gives nothing exactly where there is no code to give.
  - `labels`, `stack`, `locals`: laws on the form of the code. Every label is placed once and jumps
    go nowhere else; every instruction is reached with one number of values on the stack; code
    touches only local variables that are counted, and no two variables share one.
  - `machine`, `meaning`, `counters`, `arrays`, `action`: laws on what the code does. Expressions
    leave their value; statements change the memory and print as they should, go on in the right
    place, and where they return, come to the way out with the value on top. What a called method
    does is left open: the laws hold whatever it does. An element with a default has a law of its
    own, and is left out inside other expressions and statements, because of the index that it
    leaves on the stack. An increment or a decrement has its law whatever its operand is, from
    behind the operand on.
- `tests/` compares code with code written out by hand, and runs it on a small machine.
- `app/` hands the classes to the class builder of the `backend` crate, which writes the files.

Code for an array element with a default leaves the index on the stack below the value. The law on
the stack says so, and leaves such elements out where one value is called for.

A variable is declared where it stands by the scope that it is given. A class member that is no
field takes a local variable and adds nothing to the class; a parameter or a loop variable that is
a field is added to the class, before the method that declares it. The laws on local variables
leave such methods out.
