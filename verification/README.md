# Materialized views for DataFusion

Decides when a query can be answered from a materialized view, whether a view is
ready to be read, and which files the tables of a catalog consist of.

* `src/` is the library. Its rules are proved with Verus: each function states
  what it returns, and the public proof functions state what holds of the rules
  together.
  * `rewrite::normal_form` and `rewrite::predicate` bring a plan into normal form
    and rewrite it on top of a view.
  * `rewrite::semantics`, `rewrite::soundness`, `rewrite::matching_laws`,
    `rewrite::table_laws` and `rewrite::plan_laws` hold what is proved of that. A
    rewritten query gives exactly the rows of the query, on every engine that
    evaluates conjunctions, negations and comparisons as SQL does, where the fields
    of the view have names of their own. How an engine orders values that are not
    looked into does not matter.
  * `rewrite::readiness` refreshes and strips the readiness of views.
  * `materialized` casts tables to listing tables and materialized views, and
    `materialized::file_metadata` is the table of files.
  * `interval` calls the interval arithmetic of DataFusion, and `schema` its
    lookups of columns. What is believed of them, and of the other outside
    functions, stands in the doc comments of the functions marked
    `external_body`.
* `app/` converts the types of DataFusion to those of the library and back, and
  does the input and output.
* `tests/` runs the library on values.

Floating-point numbers, lists, structs, maps, unions and dictionaries of these
are not looked into: comparisons of them match only where query and view write
them in the same way.
