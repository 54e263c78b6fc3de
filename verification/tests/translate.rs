use sonder::transpiler::{convert_to_rust_code, parse_c};

fn translate(c_code: &str) -> String {
    let ast = parse_c(c_code).expect("the C code parses");
    convert_to_rust_code(ast).expect("the program translates")
}

#[test]
fn basic_assignment() {
    let rust_code = translate(
        "int main() {
            int n = 0;
            n = 2;
        }",
    );
    assert_eq!(rust_code, "fn main() -> () {\nlet mut n: i32;\n\tn = 2;\n}");
}

#[test]
fn three_mut_layered() {
    let rust_code = translate(
        "int main() {
            int n = 0;
            int* g = &n;
            int* p = &n;
            int** m = &p;
            **m = 5;
        }",
    );
    assert_eq!(rust_code, "fn main() -> () {\nlet mut n: i32 = 0;\n\tlet mut g: &i32 = &n;\n\tlet mut p: &mut i32  = &mut n;\n\tlet mut m: &mut &mut i32   = &mut p;\n\t**m = 5;\n}");
}

#[test]
fn value_mut_ptr_overlap() {
    let rust_code = translate(
        "int main() {
            int t = 0;
            int* g = &t;
            t = 1;
            *g = 2;
        }",
    );
    assert_eq!(rust_code, "fn main() -> () {\nlet mut t: i32 = 0;\n\tt = 1;\n\tlet mut g: &mut i32  = &mut t;\n\t*g = 2;\n}");
}

#[test]
fn value_const_ptr_overlap() {
    let rust_code = translate(
        "int main() {
            int t = 0;
            int* g = &t;
            t = 1;
            int h = *g;
        }",
    );
    assert_eq!(rust_code, "fn main() -> () {\nlet mut t: i32 = 0;\n\tt = 1;\n\tlet mut g: &i32 = &t;\n\tlet _h: i32 = *g;\n}");
}

#[test]
fn deref_value_assignment() {
    let rust_code = translate(
        "void main() {
            int k = 3;
            int* y = &k;
            *y = k + 6;
        }",
    );
    assert_eq!(rust_code, "fn main() -> () {\nlet mut k: i32 = 3;\n\tlet mut y: *mut i32 = &mut k as *mut i32;\n\tunsafe { *y = k + 6 };\n}");
}

#[test]
fn const_mut_ptr_overlap() {
    let rust_code = translate(
        "int main() {
            int n = 0;
            int* g = &n;
            int* m = &n;
            int t = *g;
            *m = 4;
        }",
    );
    assert_eq!(rust_code, "fn main() -> () {\nlet mut n: i32 = 0;\n\tlet mut g: &i32 = &n;\n\tlet _t: i32 = *g;\n\tlet mut m: &mut i32  = &mut n;\n\t*m = 4;\n}");
}

#[test]
fn mut_const_ptr_overlap() {
    let rust_code = translate(
        "int main() {
            int n = 0;
            int* m = &n;
            int* g = &n;
            *m = 4;
            int t = *g;
        }",
    );
    assert_eq!(rust_code, "fn main() -> () {\nlet mut n: i32 = 0;\n\tlet mut g: &i32 = &n;\n\tlet _t: i32 = *g;\n\tlet mut m: &mut i32  = &mut n;\n\t*m = 4;\n}");
}

#[test]
fn mut_const_ptr_multi_overlap() {
    let rust_code = translate(
        "int main() {
            int n = 0;
            int* m = &n;
            int* g = &n;
            int j = *g;
            *m = 4;
            int t = *g;
        }",
    );
    assert_eq!(rust_code, "use std::{cell::RefCell, rc::Rc};\nfn main() -> () {\nlet n: Rc<RefCell<i32>> = Rc::new(RefCell::new(0));\n\tlet g: Rc<RefCell<i32>> = n.clone();\n\tlet m: Rc<RefCell<i32>> = n.clone();\n\tlet _j: i32 = *g.borrow();\n\t*m.borrow_mut() = 4;\n\tlet _t: i32 = *g.borrow();\n}");
}

#[test]
fn value_const_ptr_multi_overlap() {
    let rust_code = translate(
        "int main() {
            int t = 0;
            int* g = &t;
            t = 3;
            t = 1;
            int h = *g;
        }",
    );
    assert_eq!(rust_code, "fn main() -> () {\nlet mut t: i32 = 0;\n\tt = 3;\n\tt = 1;\n\tlet mut g: &i32 = &t;\n\tlet _h: i32 = *g;\n}");
}

#[test]
fn simple_multi_ref() {
    let rust_code = translate(
        "int main() {
            int n = 0;
            int* g = &n;
            int* b = &n;
            int k = *g;
            int y = 9;
            *b = y;
        }",
    );
    assert_eq!(rust_code, "fn main() -> () {\nlet mut n: i32 = 0;\n\tlet mut g: &i32 = &n;\n\tlet _k: i32 = *g;\n\tlet mut b: &mut i32  = &mut n;\n\tlet y: i32 = 9;\n\t*b = y;\n}");
}

#[test]
fn unused_init_value() {
    let rust_code = translate(
        "int main() {
            int n = 0;
            n = 7;
        }",
    );
    assert_eq!(rust_code, "fn main() -> () {\nlet mut n: i32;\n\tn = 7;\n}");
}

#[test]
fn crazy_multi_ref() {
    let rust_code = translate(
        "int main() {
            int n = 0;
            int* g = &n;
            int* k = &n;
            int** h = &g;
            int p = 3;
            *h = &p;
        }",
    );
    assert_eq!(rust_code, "fn main() -> () {\nlet mut n: i32 = 0;\n\tlet mut k: &i32 = &n;\n\tlet mut g: &mut i32  = &mut n;\n\tlet mut h: &mut &mut i32   = &mut g;\n\tlet p: i32 = 3;\n\t**h = p;\n}");
}

#[test]
fn struct_basic() {
    let rust_code = translate(
        "struct test {
            int m;
            int j;
        };",
    );
    assert_eq!(rust_code, "struct test {\n\tm: i32,\n\tj: i32,\n}\nfn main() -> () {\n\n}");
}

#[test]
fn struct_init() {
    let rust_code = translate(
        "struct Test {
            int m;
            int j;
        };

        int main() {
            struct Test my_test = { 0, 2 };
        }",
    );
    assert_eq!(rust_code, "struct Test {\n\tm: i32,\n\tj: i32,\n}\nfn main() -> () {\nlet _my_test = Test {m: 0,j: 2,};\n}");
}

#[test]
fn struct_field_assignment() {
    let rust_code = translate(
        "struct Test {
            int m;
            int j;
        };

        int main() {
            struct Test my_test = { 0, 2 };
            my_test.m = 1;
        }",
    );
    assert_eq!(rust_code, "struct Test {\n\tm: i32,\n\tj: i32,\n}\nfn main() -> () {\nlet mut my_test = Test {m: 0,j: 2,};\n\tmy_test.m = 1;\n}");
}

#[test]
fn struct_with_ptr() {
    let rust_code = translate(
        "struct Point {
            int* ptr;
            int c;
        };

        int main() {
            int t = 4;
            struct Point l = { &t, 5 };
            *l.ptr = 5;
        }",
    );
    assert_eq!(rust_code, "struct Point<'a> {\n\tptr: &'a mut i32,\n\tc: i32,\n}\nfn main() -> () {\nlet mut t: i32 = 4;\n\tlet l = Point {ptr: &mut t,c: 5,};\n\t*l.ptr = 5;\n}");
}

#[test]
fn struct_with_ptr_two() {
    let rust_code = translate(
        "struct Point {
            int* ptr;
            int* ptr2;
            int c;
        };

        int main() {
            int t = 4;
            int g = 8;
            struct Point l = { &t, &g, 5 };
            *l.ptr = 5;
            *l.ptr2 = 9;
        }",
    );
    assert_eq!(rust_code, "struct Point<'a> {\n\tptr: &'a mut i32,\n\tptr2: &'a mut i32,\n\tc: i32,\n}\nfn main() -> () {\nlet mut t: i32 = 4;\n\tlet mut g: i32 = 8;\n\tlet l = Point {ptr: &mut t,ptr2: &mut g,c: 5,};\n\t*l.ptr = 5;\n\t*l.ptr2 = 9;\n}");
}

#[test]
fn struct_field_ptr_assignment() {
    let rust_code = translate(
        "struct Point {
            int* ptr;
        };

        int main() {
            int t = 4;
            struct Point l = { &t };
            *l.ptr = 5;
        }",
    );
    assert_eq!(rust_code, "struct Point<'a> {\n\tptr: &'a mut i32,\n}\nfn main() -> () {\nlet mut t: i32 = 4;\n\tlet l = Point {ptr: &mut t,};\n\t*l.ptr = 5;\n}");
}

#[test]
fn struct_with_ptr_multi() {
    let rust_code = translate(
        "struct Point {
            int* ptr;
            int** ptr2;
            int c;
        };

        int main() {
            int t = 4;
            int g = 8;
            int* h = &g;
            struct Point l = { &t, &h, 5 };
            *l.ptr = 5;
            **l.ptr2 = 9;
        }",
    );
    assert_eq!(rust_code, "struct Point<'a> {\n\tptr: &'a mut i32,\n\tptr2: &'a mut &'a mut i32,\n\tc: i32,\n}\nfn main() -> () {\nlet mut t: i32 = 4;\n\tlet mut g: i32 = 8;\n\tlet mut h: &mut i32  = &mut g;\n\tlet l = Point {ptr: &mut t,ptr2: &mut h,c: 5,};\n\t*l.ptr = 5;\n\t**l.ptr2 = 9;\n}");
}

#[test]
fn basic_loop() {
    let rust_code = translate(
        "int main() {
            int i = 0;
            while (i == 0) {
                i++;
            }
        }",
    );
    assert_eq!(rust_code, "fn main() -> () {\nlet mut i: i32 = 0;\n\twhile i == 0 {\n\t\ti += 1;\n\t}\n}");
}

#[test]
fn ptr_loop() {
    let rust_code = translate(
        "int main() {
            int i = 0;
            while (i == 0) {
                int* k = &i;
                *k = 1;
            }
        }",
    );
    assert_eq!(rust_code, "fn main() -> () {\nlet mut i: i32 = 0;\n\twhile i == 0 {\n\t\tlet mut k: &mut i32  = &mut i;\n\t*k = 1;\n\t}\n}");
}

#[test]
fn function_call() {
    let rust_code = translate(
        "int main() {
            test(1, 2);
        }
        void test(int a, int b) {
            int k = a + b;
        }",
    );
    assert_eq!(rust_code, "fn main() -> () {\ntest(1, 2)\n}\nfn test(a: i32, b: i32) -> () {\nlet _k: i32 = a + b;\n}");
}

#[test]
fn assignment_function_call() {
    let rust_code = translate(
        "int main() {
            int t = add(1, 2);
        }
        int add(int a, int b) {
            int k = a + b;
            return(k);
        }",
    );
    assert_eq!(rust_code, "fn main() -> () {\nlet _t: i32 = add(1, 2);\n}\nfn add(a: i32, b: i32) -> i32 {\nlet k: i32 = a + b;\n\treturn(k);\n}");
}

#[test]
fn recursive_function() {
    let rust_code = translate(
        "int main() {
            int i = 0;
            int g = count_four(i);
        }
        int count_four(int i) {
            if (i == 3) {
                return 4;
            }
            return(count_four(i + 1));
        }",
    );
    assert_eq!(rust_code, "fn main() -> () {\nlet i: i32 = 0;\n\tlet _g: i32 = count_four(i);\n}\nfn count_four(i: i32) -> i32 {\nif i == 3 {\nreturn(4);\n}\n\treturn(count_four(i + 1));\n}");
}
