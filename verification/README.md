# index_executor

The part of a database that answers the conditions of a query from the indexes of a table: plain
and unique indexes, full-text indexes, and M-trees and HNSW graphs for nearest neighbours.

The library in `src/` is verified with Verus. It decides which keys and ranges of an index are
read, which entry serves which expression, and what is made of the answers of the store. It does
no input or output: where the store has to be asked, a function returns what to ask, and another
one takes the answer.

| Module      | What it holds                                                             |
|-------------|---------------------------------------------------------------------------|
| `double`    | doubles by their bits: rounding to integers, the double of an integer      |
| `decimal`   | decimals, converted by `rust_decimal`                                      |
| `value`     | the values of queries and records                                         |
| `plan`      | what the planner hands over: indexes, operators, options                  |
| `variants`  | the forms of a number in an index, and the ranges between two numbers     |
| `keys`      | the keys that are looked up for a value                                   |
| `executor`  | what an executor holds                                                    |
| `builder`   | making an executor from what was planned                                  |
| `iterators` | the iterators over the records of an index                                |
| `documents` | the keys of the documents of a full-text index                            |
| `matching`  | full-text matching, scores, highlighting and offsets                      |
| `knn`       | nearest-neighbour operators that no index serves                          |

A number is stored as an integer, a double or a decimal, and an index keeps these apart. So a
number is looked up in each of its forms, and a range of numbers becomes one range for each form.
The proof functions named `law_...` state what holds of this, and of the other modules. Their
`requires` name the inputs that a law is about: an integer may fall out of a range, for instance,
where a decimal with fractional digits is an exclusive end of it.

`app/` runs an executor on a store.
