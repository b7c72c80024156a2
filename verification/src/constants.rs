use vstd::prelude::*;

verus! {

// The vocabulary of the query document: keys of filter, write and argument objects.

pub const EQUALS: &'static str = "equals";
pub const CONTAINS: &'static str = "contains";
pub const STARTS_WITH: &'static str = "startsWith";
pub const ENDS_WITH: &'static str = "endsWith";
pub const LOWER_THAN: &'static str = "lt";
pub const LOWER_THAN_OR_EQUAL: &'static str = "lte";
pub const GREATER_THAN: &'static str = "gt";
pub const GREATER_THAN_OR_EQUAL: &'static str = "gte";
pub const IN: &'static str = "in";
pub const NOT_IN: &'static str = "notIn";
pub const SEARCH: &'static str = "search";
pub const IS_SET: &'static str = "isSet";
pub const MODE: &'static str = "mode";
pub const INSENSITIVE: &'static str = "insensitive";
pub const DEFAULT: &'static str = "default";
pub const NOT_LOWERCASE: &'static str = "not";
pub const HAS: &'static str = "has";
pub const HAS_SOME: &'static str = "hasSome";
pub const HAS_EVERY: &'static str = "hasEvery";
pub const IS_EMPTY: &'static str = "isEmpty";
pub const EVERY: &'static str = "every";
pub const SOME: &'static str = "some";
pub const NONE: &'static str = "none";
pub const IS: &'static str = "is";
pub const IS_NOT: &'static str = "isNot";
pub const PATH: &'static str = "path";
pub const ARRAY_CONTAINS: &'static str = "array_contains";
pub const ARRAY_STARTS_WITH: &'static str = "array_starts_with";
pub const ARRAY_ENDS_WITH: &'static str = "array_ends_with";
pub const STRING_CONTAINS: &'static str = "string_contains";
pub const STRING_STARTS_WITH: &'static str = "string_starts_with";
pub const STRING_ENDS_WITH: &'static str = "string_ends_with";
pub const GEO_WITHIN: &'static str = "geoWithin";
pub const GEO_INTERSECTS: &'static str = "geoIntersects";
pub const UNDERSCORE_REF: &'static str = "_ref";
pub const UNDERSCORE_CONTAINER: &'static str = "_container";

pub const UNDERSCORE_COUNT: &'static str = "_count";
pub const UNDERSCORE_AVG: &'static str = "_avg";
pub const UNDERSCORE_SUM: &'static str = "_sum";
pub const UNDERSCORE_MIN: &'static str = "_min";
pub const UNDERSCORE_MAX: &'static str = "_max";

pub const DB_NULL: &'static str = "DbNull";
pub const JSON_NULL: &'static str = "JsonNull";
pub const ANY_NULL: &'static str = "AnyNull";

pub const SET: &'static str = "set";
pub const UNSET: &'static str = "unset";
pub const INCREMENT: &'static str = "increment";
pub const DECREMENT: &'static str = "decrement";
pub const MULTIPLY: &'static str = "multiply";
pub const DIVIDE: &'static str = "divide";
pub const PUSH: &'static str = "push";
pub const UPDATE: &'static str = "update";

pub const WHERE: &'static str = "where";
pub const DATA: &'static str = "data";
pub const CREATE: &'static str = "create";
pub const CURSOR: &'static str = "cursor";
pub const TAKE: &'static str = "take";
pub const SKIP: &'static str = "skip";
pub const ORDER_BY: &'static str = "orderBy";
pub const DISTINCT: &'static str = "distinct";
pub const RELATION_LOAD_STRATEGY: &'static str = "relationLoadStrategy";
pub const UNDERSCORE_RELEVANCE: &'static str = "_relevance";
pub const SORT: &'static str = "sort";
pub const NULLS: &'static str = "nulls";
pub const FIELDS: &'static str = "fields";
pub const ASC: &'static str = "asc";
pub const DESC: &'static str = "desc";
pub const FIRST: &'static str = "first";
pub const LAST: &'static str = "last";
pub const JOIN: &'static str = "join";
pub const QUERY: &'static str = "query";

} // verus!
